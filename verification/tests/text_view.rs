use git_dashboard::config::Language;
use git_dashboard::git::{CommitSummary, shell_quote};
use git_dashboard::i18n::t;
use git_dashboard::view::{
    cap_readme, commit_hover, describe_ref, find_readme, format_size, format_thousands,
    looks_like_short_hash, readme_candidates, readme_show_args, replace_graph_chars, short,
    str_cols, truncate,
};

#[test]
fn test_format_thousands() {
    assert_eq!(format_thousands(0), "0");
    assert_eq!(format_thousands(999), "999");
    assert_eq!(format_thousands(1000), "1,000");
    assert_eq!(format_thousands(1234567), "1,234,567");
}

#[test]
fn format_thousands_removing_separators_gives_digits() {
    for n in [0usize, 7, 12, 123, 1234, 12345, 123456, 1234567, 987654321] {
        let s = format_thousands(n);
        assert_eq!(s.replace(',', ""), n.to_string());
    }
    assert_eq!(format_thousands(12345), "12,345");
    assert_eq!(format_thousands(100000), "100,000");
}

#[test]
fn test_format_size() {
    assert_eq!(format_size(0), "0 B");
    assert_eq!(format_size(100), "100 B");
    assert_eq!(format_size(1023), "1023 B");
    assert_eq!(format_size(1024), "1.0 KB");
    assert_eq!(format_size(1536), "1.5 KB");
    assert_eq!(format_size(1024 * 1024 - 1), "1024.0 KB");
    assert_eq!(format_size(1024 * 1024), "1.00 MB");
    assert_eq!(format_size(1024 * 1024 * 15 / 10), "1.50 MB");
    assert_eq!(format_size(1024 * 1024 * 1024), "1.00 GB");
    assert_eq!(format_size(1024 * 1024 * 1024 * 25 / 10), "2.50 GB");
}

#[test]
fn format_size_rounds_like_float_formatting() {
    for b in [1025u64, 1100, 1280, 2047, 5000, 10_000, 123_456, 1_000_000, 1_048_577, 1_179_648, 7_340_033] {
        let expected = if b >= 1024 * 1024 {
            format!("{:.2} MB", b as f64 / (1024.0 * 1024.0))
        } else {
            format!("{:.1} KB", b as f64 / 1024.0)
        };
        assert_eq!(format_size(b), expected);
    }
    for b in [1u64 << 30, 3_000_000_000, 1 << 40, u64::MAX] {
        assert_eq!(format_size(b), format!("{:.2} GB", b as f64 / (1024.0 * 1024.0 * 1024.0)));
    }
}

#[test]
fn test_shell_quote() {
    assert_eq!(shell_quote("log"), "'log'");
    assert_eq!(
        shell_quote("--pretty=format:%C(auto)%h %s"),
        "'--pretty=format:%C(auto)%h %s'"
    );
    assert_eq!(shell_quote("it's"), r"'it'\''s'");
}

#[test]
fn test_i18n_fallback() {
    assert_eq!(t(Language::English, "unknown_key_xyz"), "unknown_key_xyz");
    assert_eq!(t(Language::Japanese, "unknown_key_xyz"), "unknown_key_xyz");
}

#[test]
fn test_i18n_translations() {
    assert_eq!(t(Language::English, "settings"), "Settings");
    assert_eq!(t(Language::Japanese, "settings"), "設定");
    assert_eq!(t(Language::English, "cancel"), "Cancel");
    assert_eq!(t(Language::Japanese, "cancel"), "キャンセル");
}

#[test]
fn short_and_truncate_count_characters() {
    assert_eq!(short("abcdef", 3), "abc…");
    assert_eq!(short("abc", 3), "abc");
    assert_eq!(short("日本語のテキスト", 3), "日本語…");
    assert_eq!(truncate("hello world", 5), "hello…");
    assert_eq!(truncate("hello", 5), "hello");
    assert_eq!(truncate("", 0), "");
}

#[test]
fn short_hash_heuristic() {
    assert!(looks_like_short_hash("a1b2c3d"));
    assert!(looks_like_short_hash("ABCDEF012345"));
    assert!(!looks_like_short_hash("a1b2c3"));
    assert!(!looks_like_short_hash("a1b2c3d4e5f60"));
    assert!(!looks_like_short_hash("main123"));
    assert!(!looks_like_short_hash("v1.0.0.0"));
}

#[test]
fn graph_characters_are_replaced() {
    assert_eq!(replace_graph_chars("* | / \\ _ x"), "● │ ╱ ╲ ─ x");
    assert_eq!(replace_graph_chars("abc"), "abc");
}

#[test]
fn wide_characters_take_two_columns() {
    assert_eq!(str_cols("abc"), 3);
    assert_eq!(str_cols("日本"), 4);
    assert_eq!(str_cols(""), 0);
}

#[test]
fn long_readme_is_capped() {
    let long = "a".repeat(300_001);
    let capped = cap_readme(long);
    assert!(capped.starts_with(&"a".repeat(300_000)));
    assert!(capped.ends_with("\n\n... (truncated due to large file size)"));
    assert_eq!(capped.chars().count(), 300_000 + "\n\n... (truncated due to large file size)".len());
    assert_eq!(cap_readme("short".to_string()), "short");
}

fn commits() -> Vec<CommitSummary> {
    vec![
        CommitSummary {
            hash: "a1b2c3d".to_string(),
            author: "Alice".to_string(),
            date: "2023-01-01 12:00".to_string(),
            message: "A fairly long commit message here".to_string(),
        },
        CommitSummary {
            hash: "e5f6a7b".to_string(),
            author: "Bob".to_string(),
            date: "2023-01-02".to_string(),
            message: "Short".to_string(),
        },
    ]
}

#[test]
fn describe_known_and_unknown_refs() {
    let cs = commits();
    assert_eq!(
        describe_ref(&cs, "a1b2c3d", Language::English),
        "[a1b2c3d] 2023-01-01 Alice  A fairly long commit…"
    );
    assert_eq!(describe_ref(&cs, "e5f6", Language::English), "[e5f6a7b] 2023-01-02 Bob  Short");
    assert_eq!(describe_ref(&cs, "v1.0.0", Language::English), "v1.0.0");
    assert_eq!(
        describe_ref(&cs, "WORKING_TREE", Language::English),
        t(Language::English, "uncommitted_changes_working")
    );
}

#[test]
fn hover_shows_commit_details() {
    let cs = commits();
    assert_eq!(
        commit_hover(&cs, "e5f6a7b", Language::English),
        Some("Hash: e5f6a7b\nDate: 2023-01-02\nAuthor: Bob\n\nShort".to_string())
    );
    assert_eq!(
        commit_hover(&cs, "e5f6a7b", Language::Japanese),
        Some("ハッシュ: e5f6a7b\n日時: 2023-01-02\n作者: Bob\n\nShort".to_string())
    );
    assert_eq!(commit_hover(&cs, "main", Language::English), None);
}

#[test]
fn readme_is_the_first_readable_candidate() {
    assert_eq!(readme_candidates()[0], "README.md");
    assert_eq!(readme_show_args("README.md"), vec!["show".to_string(), "HEAD:README.md".to_string()]);
    let reads = vec![Err("missing".to_string()), Ok("# Title".to_string())];
    assert_eq!(find_readme(reads), Some(("README.txt".to_string(), "# Title".to_string())));
    assert_eq!(find_readme(vec![Err("x".to_string()); 5]), None);
    assert_eq!(find_readme(vec![]), None);
}

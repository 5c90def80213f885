use git_dashboard::ansi::{ansi_256_color, parse_ansi_line, AnsiColor};
use git_dashboard::tech::{detect_tech_info_with_rules, get_default_rules, rule_files};

fn files(entries: &[(&str, &str)]) -> Vec<(String, Option<String>)> {
    entries.iter().map(|(n, c)| (n.to_string(), Some(c.to_string()))).collect()
}

#[test]
fn test_detect_tech_info_rails() {
    let gemfile_lock_content = "\
GEM
  remote: https://rubygems.org/
  specs:
    rails (7.0.5)
      actioncable (= 7.0.5)

PLATFORMS
  ruby

DEPENDENCIES
  rails (~> 7.0.5)

RUBY VERSION
   ruby 3.2.2p53
";
    let present = files(&[("Gemfile.lock", gemfile_lock_content), (".ruby-version", "ruby-3.2.1")]);
    let rules = get_default_rules();
    let info = detect_tech_info_with_rules(&present, &rules);
    assert_eq!(info.language, "Ruby");
    assert_eq!(info.lang_version, "3.2.1");
    assert_eq!(info.framework, "Rails");
    assert_eq!(info.framework_version, "7.0.5");
}

#[test]
fn test_detect_tech_info_node() {
    let package_json_content = r#"{
  "name": "test-node",
  "dependencies": {
    "next": "^13.4.19",
    "react": "18.2.0"
  },
  "engines": {
    "node": ">=18.16.0"
  }
}"#;
    let present = files(&[("package.json", package_json_content), (".nvmrc", "v16.14.0")]);
    let rules = get_default_rules();
    let info = detect_tech_info_with_rules(&present, &rules);
    assert_eq!(info.language, "JavaScript/TypeScript");
    assert_eq!(info.lang_version, "16.14.0");
    assert_eq!(info.framework, "Next/React/Express");
    assert_eq!(info.framework_version, "13.4.19");
}

#[test]
fn test_detect_tech_info_django() {
    let present = files(&[
        ("requirements.txt", "Django==4.2.1\nrequests>=2.28.0"),
        (".python-version", "3.10.2\n"),
    ]);
    let rules = get_default_rules();
    let info = detect_tech_info_with_rules(&present, &rules);
    assert_eq!(info.language, "Python");
    assert_eq!(info.lang_version, "3.10.2");
    assert_eq!(info.framework, "Django");
    assert_eq!(info.framework_version, "4.2.1");
}

#[test]
fn tech_detection_defaults_and_unreadable_files() {
    let rules = get_default_rules();
    let none = detect_tech_info_with_rules(&vec![], &rules);
    assert_eq!((none.language.as_str(), none.lang_version.as_str()), ("-", "-"));
    assert_eq!((none.framework.as_str(), none.framework_version.as_str()), ("-", "-"));
    let unreadable = vec![("Pipfile".to_string(), None)];
    let info = detect_tech_info_with_rules(&unreadable, &rules);
    assert_eq!(info.language, "Python");
    assert_eq!(info.lang_version, "-");
    assert_eq!(info.framework, "Django");
    assert_eq!(info.framework_version, "-");
    let names = rule_files(&rules);
    assert!(names.contains(&"Gemfile.lock".to_string()));
    assert_eq!(names.iter().filter(|n| n.as_str() == "package.json").count(), 1);
}

#[test]
fn test_parse_ansi_line_plain() {
    let segments = parse_ansi_line("hello world");
    assert_eq!(segments.len(), 1);
    assert_eq!(segments[0].text, "hello world");
    assert_eq!(segments[0].color, None);
    assert!(!segments[0].bold);
}

#[test]
fn test_parse_ansi_line_colored() {
    let segments = parse_ansi_line("\x1b[31mRedText\x1b[0mNormal");
    assert_eq!(segments.len(), 2);
    assert_eq!(segments[0].text, "RedText");
    assert_eq!(segments[0].color, Some(AnsiColor::Error));
    assert!(!segments[0].bold);

    assert_eq!(segments[1].text, "Normal");
    assert_eq!(segments[1].color, None);
    assert!(!segments[1].bold);
}

#[test]
fn test_parse_ansi_line_bold() {
    let segments = parse_ansi_line("\x1b[1mBoldText\x1b[0m");
    assert_eq!(segments.len(), 1);
    assert_eq!(segments[0].text, "BoldText");
    assert_eq!(segments[0].color, None);
    assert!(segments[0].bold);
}

#[test]
fn ansi_extended_colours() {
    let s = parse_ansi_line("\x1b[38;5;196mA\x1b[38;2;1;2;3;1mB\x1b[mC");
    assert_eq!(s.len(), 3);
    assert_eq!(s[0].color, Some(AnsiColor::Rgb(255, 0, 0)));
    assert_eq!(s[1].color, Some(AnsiColor::Rgb(1, 2, 3)));
    assert!(s[1].bold);
    assert_eq!(s[2].color, None);
    assert!(!s[2].bold);
    assert_eq!(ansi_256_color(232), (8, 8, 8));
    assert_eq!(ansi_256_color(16), (0, 0, 0));
    assert_eq!(ansi_256_color(231), (255, 255, 255));
    assert_eq!(ansi_256_color(9), (255, 0, 0));
}

use repo_digest::patterns::build_glob_set;
use repo_digest::patterns::get_filter_settings;
use repo_digest::patterns::matches_path;
use repo_digest::patterns::parse_patterns;
use repo_digest::select::filter_files;
use repo_digest::select::filter_files_in_repo;
use repo_digest::select::get_all_files;
use repo_digest::select::relativize;
use repo_digest::select::should_ignore;
use repo_digest::select::FileEntry;

fn entry(path: &str, is_dir: bool) -> FileEntry {
    FileEntry { path: path.to_string(), is_dir }
}

#[test]
fn parse_patterns_skips_blanks_and_comments() {
    let list = parse_patterns("*.log\n\n# comment\nbuild/\n   \t\n");
    assert_eq!(list, vec!["*.log".to_string(), "build/".to_string()]);
}

#[test]
fn parse_patterns_handles_crlf_and_indented_hash() {
    let list = parse_patterns("a\r\n #note\r\nb");
    assert_eq!(list, vec!["a".to_string(), " #note".to_string(), "b".to_string()]);
}

#[test]
fn filter_settings_from_missing_files_are_empty() {
    let s = get_filter_settings(None, None);
    assert!(s.ignore_list.is_empty());
    assert!(s.include_list.is_empty());
}

#[test]
fn filter_settings_read_both_sources() {
    let ignore = "*.log\nbuild/\n".to_string();
    let inc = "# only sources\n*.rs\n".to_string();
    let s = get_filter_settings(Some(&ignore), Some(&inc));
    assert_eq!(s.ignore_list, vec!["*.log".to_string(), "build/".to_string()]);
    assert_eq!(s.include_list, vec!["*.rs".to_string()]);
}

#[test]
fn relativize_cases() {
    assert_eq!(relativize("repo", "repo/a/b.txt"), Some("a/b.txt".to_string()));
    assert_eq!(relativize("repo", "repo"), Some(String::new()));
    assert_eq!(relativize("repo", "repository/x"), None);
    assert_eq!(relativize("repo", "other/a.txt"), None);
}

#[test]
fn directory_ignore_uses_dual_probe() {
    let set = build_glob_set(&vec!["build/".to_string()]).unwrap();
    assert!(!matches_path(&set, "build"));
    assert!(should_ignore(&set, "repo", "repo/build", true));
    assert!(!should_ignore(&set, "repo", "repo/build", false));
}

#[test]
fn bad_pattern_is_rejected() {
    assert!(build_glob_set(&vec!["[".to_string()]).is_err());
    let entries = vec![entry("repo/a.txt", false)];
    let r = filter_files(&entries, "repo", &vec!["[".to_string()], &vec![]);
    assert!(r.is_err());
    let r2 = filter_files(&entries, "repo", &vec![], &vec!["[".to_string()]);
    assert!(r2.is_err());
}

#[test]
fn ignore_list_with_directory_pattern_selects_only_plain_file() {
    let entries = vec![
        entry("repo/a.txt", false),
        entry("repo/b.log", false),
        entry("repo/build", true),
        entry("repo/build/x.txt", false),
    ];
    let ignore = vec!["*.log".to_string(), "build/".to_string()];
    let selected = filter_files(&entries, "repo", &ignore, &vec![]).unwrap();
    let rels: Vec<&str> = selected.iter().map(|f| f.rel_path.as_str()).collect();
    assert_eq!(rels, vec!["a.txt"]);
    assert_eq!(selected[0].path, "repo/a.txt");
}

#[test]
fn ignore_takes_precedence_over_include() {
    let entries = vec![entry("repo/a.log", false), entry("repo/b.log", false)];
    let ignore = vec!["a.log".to_string()];
    let inc = vec!["*.log".to_string()];
    let selected = filter_files(&entries, "repo", &ignore, &inc).unwrap();
    let rels: Vec<&str> = selected.iter().map(|f| f.rel_path.as_str()).collect();
    assert_eq!(rels, vec!["b.log"]);
}

#[test]
fn empty_include_is_unrestricted() {
    let entries = vec![
        entry("repo/a.txt", false),
        entry("repo/b.rs", false),
        entry("repo/sub", true),
        entry("repo/sub/c.md", false),
    ];
    let with_empty = filter_files(&entries, "repo", &vec![], &vec![]).unwrap();
    let rels: Vec<&str> = with_empty.iter().map(|f| f.rel_path.as_str()).collect();
    assert_eq!(rels, vec!["a.txt", "b.rs", "sub/c.md"]);
}

#[test]
fn nonempty_include_restricts() {
    let entries = vec![entry("repo/a.txt", false), entry("repo/b.rs", false)];
    let inc = vec!["*.rs".to_string()];
    let selected = filter_files(&entries, "repo", &vec![], &inc).unwrap();
    let rels: Vec<&str> = selected.iter().map(|f| f.rel_path.as_str()).collect();
    assert_eq!(rels, vec!["b.rs"]);
}

#[test]
fn directories_are_never_selected() {
    let entries = vec![entry("repo/sub", true)];
    let selected = filter_files(&entries, "repo", &vec![], &vec![]).unwrap();
    assert!(selected.is_empty());
}

#[test]
fn get_all_files_drops_ignored_entries_only() {
    let entries = vec![
        entry("repo/a.txt", false),
        entry("repo/b.log", false),
        entry("repo/build", true),
        entry("repo/build/x.txt", false),
    ];
    let kept = get_all_files(&entries, "repo", &vec!["*.log".to_string(), "build/".to_string()])
        .unwrap();
    let paths: Vec<&str> = kept.iter().map(|e| e.path.as_str()).collect();
    // The per-entry test drops the directory itself; its descendant falls to
    // the selector's ancestor suppression.
    assert_eq!(paths, vec!["repo/a.txt", "repo/build/x.txt"]);
}

#[test]
fn filter_files_in_repo_applies_settings() {
    let entries = vec![
        entry("repo/a.txt", false),
        entry("repo/b.log", false),
        entry("repo/build", true),
        entry("repo/build/x.txt", false),
    ];
    let ignore = "*.log\nbuild/\n".to_string();
    let settings = get_filter_settings(Some(&ignore), None);
    let selected = filter_files_in_repo("repo", &entries, &settings).unwrap();
    let rels: Vec<&str> = selected.iter().map(|f| f.rel_path.as_str()).collect();
    assert_eq!(rels, vec!["a.txt"]);
}

use repo_digest::stats::aggregate_records;
use repo_digest::stats::generate_summary;
use repo_digest::stats::needs_content;
use repo_digest::stats::process_single_file;
use repo_digest::stats::size_ckb;
use repo_digest::stats::FileInfo;
use repo_digest::stats::FileReading;
use repo_digest::stats::FileRecord;
use repo_digest::stats::MeasuredFile;

fn record(path: &str, name: &str, ext: &str, size_ckb: u64, tokens: usize) -> FileRecord {
    FileRecord {
        path: path.to_string(),
        name: name.to_string(),
        extension: ext.to_string(),
        size_ckb,
        tokens,
    }
}

fn measured(file_path: &str, size_bytes: u64, reading: FileReading) -> MeasuredFile {
    MeasuredFile {
        info: FileInfo { file_path: file_path.to_string(), repo_path: "repo".to_string() },
        size_bytes,
        reading,
    }
}

#[test]
fn size_ckb_rounds_half_up() {
    assert_eq!(size_ckb(0), 0);
    assert_eq!(size_ckb(1024), 100);
    assert_eq!(size_ckb(100), 10);
    assert_eq!(size_ckb(5), 0);
    assert_eq!(size_ckb(5120000), 500000);
}

#[test]
fn ceiling_decides_whether_content_is_read() {
    assert!(needs_content(5120000));
    assert!(!needs_content(5120001));
}

#[test]
fn oversize_file_keeps_size_and_gets_zero_tokens() {
    let m = measured("repo/big.bin", 5120001, FileReading::TooLarge);
    let rec = process_single_file(&m).unwrap().unwrap();
    assert_eq!(rec.tokens, 0);
    assert_eq!(rec.path, "big.bin");
    assert_eq!(rec.name, "big.bin");
    assert_eq!(rec.extension, "bin");
    assert_eq!(rec.size_ckb, size_ckb(5120001));
}

#[test]
fn unreadable_file_is_omitted_not_fatal() {
    let m = measured("repo/locked.txt", 10, FileReading::Failed);
    assert!(process_single_file(&m).unwrap().is_none());
}

#[test]
fn file_outside_root_is_omitted() {
    let m = measured("elsewhere/a.txt", 10, FileReading::Text("hi".to_string()));
    assert!(process_single_file(&m).unwrap().is_none());
}

#[test]
fn extension_is_lowercased_with_sentinel_for_none() {
    let upper = measured("repo/A.TXT", 1, FileReading::Text(String::new()));
    assert_eq!(process_single_file(&upper).unwrap().unwrap().extension, "txt");
    let none = measured("repo/Makefile", 1, FileReading::Text(String::new()));
    assert_eq!(process_single_file(&none).unwrap().unwrap().extension, "no_extension");
    let hidden = measured("repo/.gitignore", 1, FileReading::Text(String::new()));
    assert_eq!(process_single_file(&hidden).unwrap().unwrap().extension, "no_extension");
}

#[test]
fn token_counts_come_from_the_fixed_model() {
    let m = measured("repo/x.txt", 11, FileReading::Text("hello world".to_string()));
    let rec = process_single_file(&m).unwrap().unwrap();
    assert!(rec.tokens > 0, "token count was zero");
    assert!(rec.tokens < 11, "token count {} not below character count", rec.tokens);
}

#[test]
fn two_records_aggregate_and_sort_by_tokens() {
    // y first on purpose: the report must come out sorted by tokens, descending.
    let records = vec![
        record("y.txt", "y.txt", "txt", 100, 3),
        record("x.txt", "x.txt", "txt", 100, 10),
    ];
    let stats = aggregate_records(&records);
    assert_eq!(stats.file_count, 2);
    assert_eq!(stats.total_size_ckb, 200);
    assert_eq!(stats.average_size_ckb, 100);
    assert_eq!(stats.max_size_ckb, 100);
    assert_eq!(stats.min_size_ckb, 100);
    assert_eq!(stats.context_length, 13);
    assert_eq!(stats.extension_tokens.len(), 1);
    assert_eq!(stats.extension_tokens[0].extension, "txt");
    assert_eq!(stats.extension_tokens[0].count, 2);
    assert_eq!(stats.extension_tokens[0].tokens, 13);
    let names: Vec<&str> = stats.file_data.iter().map(|d| d.name.as_str()).collect();
    assert_eq!(names, vec!["x.txt", "y.txt"]);
    assert_eq!(stats.file_data[0].tokens, 10);
    assert_eq!(stats.file_data[1].tokens, 3);
}

#[test]
fn equal_token_counts_keep_input_order() {
    let records = vec![
        record("a.txt", "a.txt", "txt", 10, 5),
        record("b.txt", "b.txt", "txt", 20, 5),
        record("c.md", "c.md", "md", 30, 9),
    ];
    let stats = aggregate_records(&records);
    let names: Vec<&str> = stats.file_data.iter().map(|d| d.name.as_str()).collect();
    assert_eq!(names, vec!["c.md", "a.txt", "b.txt"]);
}

#[test]
fn average_rounds_half_up() {
    let records = vec![
        record("a.txt", "a.txt", "txt", 1, 0),
        record("b.txt", "b.txt", "txt", 2, 0),
    ];
    // total 3 over 2 files: 1.5 rounds up to 2.
    let stats = aggregate_records(&records);
    assert_eq!(stats.total_size_ckb, 3);
    assert_eq!(stats.average_size_ckb, 2);
}

#[test]
fn aggregate_groups_per_extension_in_first_appearance_order() {
    let records = vec![
        record("a.rs", "a.rs", "rs", 1, 1),
        record("b.md", "b.md", "md", 1, 2),
        record("c.rs", "c.rs", "rs", 1, 4),
    ];
    let stats = aggregate_records(&records);
    let exts: Vec<&str> = stats.extension_tokens.iter().map(|t| t.extension.as_str()).collect();
    assert_eq!(exts, vec!["rs", "md"]);
    assert_eq!(stats.extension_tokens[0].count, 2);
    assert_eq!(stats.extension_tokens[0].tokens, 5);
    assert_eq!(stats.extension_tokens[1].count, 1);
    assert_eq!(stats.extension_tokens[1].tokens, 2);
}

#[test]
fn empty_selection_gives_zeroed_summary() {
    let summary = generate_summary("repos/owner/repo", &vec![]).unwrap();
    assert_eq!(summary.repository, "repo");
    assert_eq!(summary.total_files, 0);
    assert_eq!(summary.total_size_ckb, 0);
    assert_eq!(summary.average_file_size_ckb, 0);
    assert_eq!(summary.max_file_size_ckb, 0);
    assert_eq!(summary.min_file_size_ckb, 0);
    assert_eq!(summary.context_length, 0);
    assert!(summary.file_types.is_empty());
    assert!(summary.file_data.is_empty());
}

#[test]
fn summary_over_measured_files_is_consistent() {
    let files = vec![
        measured("repo/x.txt", 11, FileReading::Text("hello world".to_string())),
        measured("repo/big.bin", 6000000, FileReading::TooLarge),
        measured("repo/locked.txt", 10, FileReading::Failed),
    ];
    let summary = generate_summary("repo", &files).unwrap();
    assert_eq!(summary.repository, "repo");
    assert_eq!(summary.total_files, 2);
    let tokens_sum: u128 = summary.file_data.iter().map(|d| d.tokens as u128).sum();
    assert_eq!(summary.context_length, tokens_sum);
    assert_eq!(summary.file_data[0].name, "x.txt");
    assert_eq!(summary.file_data[1].name, "big.bin");
    assert_eq!(summary.file_data[1].tokens, 0);
    assert_eq!(
        summary.total_size_ckb,
        size_ckb(11) as u128 + size_ckb(6000000) as u128
    );
}

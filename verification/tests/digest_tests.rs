use repo_digest::digest::digest_output_path;
use repo_digest::digest::generate_digest_content;
use repo_digest::digest::DigestEntry;
use repo_digest::digest::ReadOutcome;

const PREAMBLE: &str = "The following text represents the contents of the repository.\nEach section begins with ----, followed by the file path and name.\nA file list is provided at the beginning. End of repository content is marked by --END--.\n\n";

fn text_entry(rel: &str, content: &str) -> DigestEntry {
    DigestEntry {
        rel_path: rel.to_string(),
        is_dir: false,
        content: ReadOutcome::Text(content.to_string()),
    }
}

#[test]
fn empty_file_list_yields_sentinel() {
    let out = generate_digest_content(&vec![]);
    assert_eq!(out, "No matching files found.");
    assert!(!out.is_empty());
}

#[test]
fn digest_has_preamble_sections_and_marker() {
    let files = vec![
        text_entry("a.txt", "hello\n"),
        DigestEntry {
            rel_path: "b.bin".to_string(),
            is_dir: false,
            content: ReadOutcome::Failed("boom".to_string()),
        },
    ];
    let out = generate_digest_content(&files);
    let expected = format!(
        "{}----\na.txt\nhello\n\n----\nb.bin\nError reading file: boom\n\n--END--",
        PREAMBLE
    );
    assert_eq!(out, expected);
    assert!(out.starts_with(PREAMBLE));
    assert!(out.ends_with("--END--"));
}

#[test]
fn sections_follow_input_order() {
    let files = vec![text_entry("z.txt", "1\n"), text_entry("a.txt", "2\n")];
    let out = generate_digest_content(&files);
    let z = out.find("z.txt").unwrap();
    let a = out.find("a.txt").unwrap();
    assert!(z < a);
}

#[test]
fn directories_in_input_are_skipped() {
    let files = vec![
        DigestEntry {
            rel_path: "sub".to_string(),
            is_dir: true,
            content: ReadOutcome::Failed("is a directory".to_string()),
        },
        text_entry("a.txt", "x\n"),
    ];
    let out = generate_digest_content(&files);
    assert!(!out.contains("sub"));
    assert!(out.contains("a.txt"));
}

#[test]
fn unreadable_file_still_gets_a_section() {
    let files = vec![
        text_entry("ok.txt", "fine\n"),
        DigestEntry {
            rel_path: "locked.txt".to_string(),
            is_dir: false,
            content: ReadOutcome::Failed("permission denied".to_string()),
        },
    ];
    let out = generate_digest_content(&files);
    assert!(out.contains("----\nlocked.txt\nError reading file: permission denied\n\n"));
    assert!(out.contains("----\nok.txt\nfine\n"));
}

#[test]
fn output_path_is_under_digests() {
    assert_eq!(digest_output_path("repo-digest-tool"), "digests/repo-digest-tool.txt");
}

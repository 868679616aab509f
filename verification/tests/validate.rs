use path_shadows::report::{Channel, OutputLine};
use path_shadows::validate::{
    classify_entry, issue_message, kind_from_answers, validate_entries, validate_path, PathIssue,
    PathKind, ProbedEntry,
};

const EMPTY_WARNING: &str = "PATH starts with or ends on ':' or contains '::' which causes it to match whatever the current directory is.";

fn probed(entry: &str, kind: PathKind) -> ProbedEntry {
    ProbedEntry { entry: entry.to_string(), kind }
}

fn texts(lines: &[OutputLine]) -> Vec<String> {
    lines.iter().map(|line| line.text.clone()).collect()
}

fn temp_path(directory: &tempfile::TempDir) -> String {
    directory.path().to_str().unwrap().to_string()
}

#[test]
fn a_directory_seen_first_has_no_issue() {
    assert_eq!(classify_entry("/usr/bin", false, PathKind::Directory), None);
}

#[test]
fn an_empty_entry_is_empty_whatever_else_holds() {
    for kind in [PathKind::Relative, PathKind::Missing, PathKind::NotDirectory, PathKind::Directory] {
        assert_eq!(classify_entry("", false, kind), Some(PathIssue::Empty));
        assert_eq!(classify_entry("", true, kind), Some(PathIssue::Empty));
    }
}

#[test]
fn a_repeated_entry_is_a_duplicate_whatever_its_kind() {
    for kind in [PathKind::Relative, PathKind::Missing, PathKind::NotDirectory, PathKind::Directory] {
        assert_eq!(classify_entry("/a", true, kind), Some(PathIssue::Duplicate));
    }
}

#[test]
fn the_kind_decides_for_an_entry_seen_first() {
    assert_eq!(classify_entry("bin", false, PathKind::Relative), Some(PathIssue::NotAbsolute));
    assert_eq!(classify_entry("/gone", false, PathKind::Missing), Some(PathIssue::Missing));
    assert_eq!(classify_entry("/etc/passwd", false, PathKind::NotDirectory), Some(PathIssue::NotDirectory));
}

#[test]
fn issue_messages_have_their_exact_text() {
    assert_eq!(issue_message("", PathIssue::Empty), EMPTY_WARNING);
    assert_eq!(issue_message("/a", PathIssue::Duplicate), "/a is duplicated");
    assert_eq!(issue_message("bin", PathIssue::NotAbsolute), "bin is not an absolute path");
    assert_eq!(issue_message("/gone", PathIssue::Missing), "/gone does not exist");
    assert_eq!(issue_message("/etc/passwd", PathIssue::NotDirectory), "/etc/passwd is not a directory");
}

#[test]
fn entries_without_fault_give_no_line() {
    let entries = vec![
        probed("/usr/local/bin", PathKind::Directory),
        probed("/usr/bin", PathKind::Directory),
        probed("/bin", PathKind::Directory),
    ];
    assert!(validate_entries(&entries).is_empty());
    assert!(validate_entries(&vec![]).is_empty());
}

#[test]
fn an_empty_segment_is_warned_of_once() {
    let entries = vec![
        probed("/a", PathKind::Directory),
        probed("", PathKind::Relative),
        probed("/b", PathKind::Directory),
    ];
    let lines = validate_entries(&entries);
    assert_eq!(texts(&lines), vec![EMPTY_WARNING.to_string()]);
    assert_eq!(lines[0].channel, Channel::Report);
}

#[test]
fn every_empty_segment_is_warned_of() {
    let entries = vec![
        probed("", PathKind::Relative),
        probed("/a", PathKind::Directory),
        probed("", PathKind::Relative),
    ];
    assert_eq!(texts(&validate_entries(&entries)), vec![EMPTY_WARNING.to_string(), EMPTY_WARNING.to_string()]);
}

#[test]
fn a_duplicate_is_reported_at_its_second_occurrence() {
    let entries = vec![probed("/a", PathKind::Directory), probed("/a", PathKind::Directory)];
    assert_eq!(texts(&validate_entries(&entries)), vec!["/a is duplicated".to_string()]);
}

#[test]
fn a_duplicate_is_reported_at_each_repetition() {
    let entries = vec![
        probed("/a", PathKind::Directory),
        probed("/b", PathKind::Directory),
        probed("/a", PathKind::Directory),
        probed("/a", PathKind::Directory),
    ];
    assert_eq!(
        texts(&validate_entries(&entries)),
        vec!["/a is duplicated".to_string(), "/a is duplicated".to_string()]
    );
}

#[test]
fn a_faulty_entry_repeated_is_a_duplicate_the_second_time() {
    let entries = vec![probed("bin", PathKind::Relative), probed("bin", PathKind::Relative)];
    assert_eq!(
        texts(&validate_entries(&entries)),
        vec!["bin is not an absolute path".to_string(), "bin is duplicated".to_string()]
    );
}

#[test]
fn duplicates_are_told_by_exact_text() {
    let entries = vec![probed("/a", PathKind::Directory), probed("/a/", PathKind::Directory)];
    assert!(validate_entries(&entries).is_empty());
}

#[test]
fn issues_come_in_the_order_of_the_entries() {
    let entries = vec![
        probed("/gone", PathKind::Missing),
        probed("/ok", PathKind::Directory),
        probed("rel", PathKind::Relative),
        probed("/file", PathKind::NotDirectory),
    ];
    assert_eq!(
        texts(&validate_entries(&entries)),
        vec![
            "/gone does not exist".to_string(),
            "rel is not an absolute path".to_string(),
            "/file is not a directory".to_string(),
        ]
    );
}

#[test]
fn validate_path_without_fault_gives_no_line() {
    let a = tempfile::tempdir().unwrap();
    let b = tempfile::tempdir().unwrap();
    assert!(validate_path(&format!("{}:{}", temp_path(&a), temp_path(&b))).is_empty());
    assert!(validate_path(&temp_path(&a)).is_empty());
}

#[test]
fn validate_path_with_an_empty_segment() {
    let a = tempfile::tempdir().unwrap();
    let b = tempfile::tempdir().unwrap();
    let lines = validate_path(&format!("{}::{}", temp_path(&a), temp_path(&b)));
    assert_eq!(texts(&lines), vec![EMPTY_WARNING.to_string()]);
}

#[test]
fn validate_path_with_a_duplicate() {
    let a = tempfile::tempdir().unwrap();
    let path = temp_path(&a);
    let lines = validate_path(&format!("{}:{}", path, path));
    assert_eq!(texts(&lines), vec![format!("{} is duplicated", path)]);
}

#[test]
fn validate_path_of_the_empty_text() {
    assert_eq!(texts(&validate_path("")), vec![EMPTY_WARNING.to_string()]);
}

#[test]
fn validate_path_with_every_fault() {
    let a = tempfile::tempdir().unwrap();
    let file = tempfile::Builder::new().prefix("tool").rand_bytes(0).tempfile_in(a.path()).unwrap();
    let root = temp_path(&a);
    let file_path = file.path().to_str().unwrap().to_string();
    let raw = format!("{}:bin:{}/absent:{}:{}:", root, root, file_path, root);
    assert_eq!(
        texts(&validate_path(&raw)),
        vec![
            "bin is not an absolute path".to_string(),
            format!("{}/absent does not exist", root),
            format!("{} is not a directory", file_path),
            format!("{} is duplicated", root),
            EMPTY_WARNING.to_string(),
        ]
    );
}

#[test]
fn validate_path_of_relative_entries() {
    assert_eq!(
        texts(&validate_path("bin:./tools:bin")),
        vec![
            "bin is not an absolute path".to_string(),
            "./tools is not an absolute path".to_string(),
            "bin is duplicated".to_string(),
        ]
    );
}

#[test]
fn a_relative_path_is_relative_whatever_else_was_answered() {
    for found in [false, true] {
        for is_directory in [false, true] {
            assert_eq!(kind_from_answers(true, found, is_directory), PathKind::Relative);
        }
    }
}

#[test]
fn an_absolute_path_that_leads_nowhere_is_missing() {
    assert_eq!(kind_from_answers(false, false, false), PathKind::Missing);
    assert_eq!(kind_from_answers(false, false, true), PathKind::Missing);
}

#[test]
fn an_absolute_path_to_a_file_is_no_directory() {
    assert_eq!(kind_from_answers(false, true, false), PathKind::NotDirectory);
}

#[test]
fn an_absolute_path_to_a_directory_is_a_directory() {
    assert_eq!(kind_from_answers(false, true, true), PathKind::Directory);
}

use path_shadows::locate::{find_positions, locate, Target};
use path_shadows::report::{Channel, OutputLine};
use path_shadows::scan::{DirectoryEntry, DirectoryListing, EntryRead, ScanItem};

fn target(name: &str) -> Target {
    Target { command: name.to_string(), name: Some(name.to_string()) }
}

fn file(directory: &str, name: &str) -> ScanItem {
    ScanItem::File { filename: name.to_string(), full_path: format!("{}/{}", directory, name) }
}

fn entry(directory: &str, name: &str) -> EntryRead {
    EntryRead::Entry(DirectoryEntry {
        filename: name.to_string(),
        full_path: format!("{}/{}", directory, name),
        is_directory: false,
    })
}

fn texts(lines: &[OutputLine]) -> Vec<(Channel, String)> {
    lines.iter().map(|line| (line.channel, line.text.clone())).collect()
}

fn report(text: &str) -> (Channel, String) {
    (Channel::Report, text.to_string())
}

#[test]
fn locate_names_every_directory_then_what_is_missing() {
    let items = vec![file("/a", "foo"), file("/a", "baz"), file("/b", "foo")];
    let lines = locate(&vec![target("foo"), target("bar")], &items);
    assert_eq!(texts(&lines), vec![report("/a/foo"), report("/b/foo"), report("bar not found")]);
}

#[test]
fn locate_follows_the_walk_not_the_targets() {
    let items = vec![file("/a", "bar"), file("/a", "foo"), file("/b", "foo"), file("/c", "bar")];
    let lines = locate(&vec![target("foo"), target("bar")], &items);
    assert_eq!(
        texts(&lines),
        vec![report("/a/bar"), report("/a/foo"), report("/b/foo"), report("/c/bar")]
    );
}

#[test]
fn locate_reports_a_file_once_for_each_target_of_its_name() {
    let items = vec![file("/a", "foo"), file("/b", "foo")];
    let lines = locate(&vec![target("foo"), target("foo")], &items);
    assert_eq!(
        texts(&lines),
        vec![report("/a/foo"), report("/a/foo"), report("/b/foo"), report("/b/foo")]
    );
}

#[test]
fn locate_lists_what_is_missing_in_the_order_of_the_targets() {
    let items = vec![file("/a", "foo")];
    let lines = locate(&vec![target("zed"), target("foo"), target("bar"), target("zed")], &items);
    assert_eq!(
        texts(&lines),
        vec![report("/a/foo"), report("zed not found"), report("bar not found"), report("zed not found")]
    );
}

#[test]
fn locate_compares_names_exactly() {
    let items = vec![file("/a", "Foo"), file("/a", "foo.sh"), file("/a", "fo")];
    assert_eq!(texts(&locate(&vec![target("foo")], &items)), vec![report("foo not found")]);
}

#[test]
fn locate_without_targets_says_nothing_of_files() {
    assert!(locate(&vec![], &vec![file("/a", "foo")]).is_empty());
}

#[test]
fn locate_on_an_empty_walk_finds_nothing() {
    assert_eq!(
        texts(&locate(&vec![target("foo"), target("bar")], &vec![])),
        vec![report("foo not found"), report("bar not found")]
    );
}

#[test]
fn locate_names_a_missing_command_by_its_whole_text() {
    let wanted = Target { command: "some/dir/foo".to_string(), name: Some("foo".to_string()) };
    assert_eq!(texts(&locate(&vec![wanted], &vec![])), vec![report("some/dir/foo not found")]);
}

#[test]
fn locate_never_finds_a_command_without_a_file_name() {
    let wanted = Target { command: "..".to_string(), name: None };
    let items = vec![file("/a", ".."), file("/a", "")];
    assert_eq!(texts(&locate(&vec![wanted], &items)), vec![report(".. not found")]);
}

#[test]
fn locate_keeps_diagnostics_in_their_place() {
    let items = vec![
        ScanItem::DirectoryUnreadable { directory: "/gone".to_string(), reason: "not found".to_string() },
        file("/a", "foo"),
        ScanItem::EntryUnreadable { reason: "stale".to_string() },
        file("/b", "foo"),
    ];
    assert_eq!(
        texts(&locate(&vec![target("foo"), target("bar")], &items)),
        vec![
            (Channel::Diagnostic, "Can not read directory /gone: not found".to_string()),
            report("/a/foo"),
            (Channel::Diagnostic, "Can not read file: stale".to_string()),
            report("/b/foo"),
            report("bar not found"),
        ]
    );
}

#[test]
fn find_positions_of_a_command_in_two_directories_and_one_in_none() {
    let listings = vec![
        DirectoryListing::Entries(vec![entry("/a", "foo"), entry("/a", "other")]),
        DirectoryListing::Entries(vec![entry("/b", "foo")]),
    ];
    let lines = find_positions(&vec!["foo".to_string(), "bar".to_string()], &listings);
    assert_eq!(texts(&lines), vec![report("/a/foo"), report("/b/foo"), report("bar not found")]);
}

#[test]
fn find_positions_compares_only_the_file_name_of_a_command() {
    let listings = vec![
        DirectoryListing::Entries(vec![entry("/a", "foo")]),
        DirectoryListing::Entries(vec![entry("/b", "bar")]),
    ];
    let commands = vec!["/usr/bin/foo".to_string(), "./baz".to_string()];
    assert_eq!(
        texts(&find_positions(&commands, &listings)),
        vec![report("/a/foo"), report("./baz not found")]
    );
}

#[test]
fn find_positions_skips_directories_of_the_name() {
    let listings = vec![DirectoryListing::Entries(vec![EntryRead::Entry(DirectoryEntry {
        filename: "foo".to_string(),
        full_path: "/a/foo".to_string(),
        is_directory: true,
    })])];
    assert_eq!(
        texts(&find_positions(&vec!["foo".to_string()], &listings)),
        vec![report("foo not found")]
    );
}

#[test]
fn find_positions_goes_on_after_an_unreadable_directory() {
    let listings = vec![
        DirectoryListing::Unreadable { directory: "/gone".to_string(), reason: "denied".to_string() },
        DirectoryListing::Entries(vec![entry("/b", "foo")]),
    ];
    assert_eq!(
        texts(&find_positions(&vec!["foo".to_string()], &listings)),
        vec![(Channel::Diagnostic, "Can not read directory /gone: denied".to_string()), report("/b/foo")]
    );
}

//! Checking the entries of a search path, one by one.
//!
//! No directory is opened for this. Each entry is looked at as a text and, when
//! the text gives no reason for complaint, as a path.

use vstd::prelude::*;
use vstd::hash_set::StringHashSet;

use crate::report::{line_views, report_line, OutputLine, OutputLineView};
use crate::search_path::{split_on, split_search_path, SEPARATOR};
use crate::system::{path_exists, path_is_dir, path_is_relative};
use crate::text::texts;

verus! {

/// What is wrong with an entry of a search path.
#[derive(Clone, Copy, Debug, PartialEq, Eq, Structural)]
pub enum PathIssue {
    /// The entry is empty, which a shell takes for the current directory.
    Empty,
    /// The same entry stands earlier on the search path.
    Duplicate,
    /// The entry is not an absolute path.
    NotAbsolute,
    /// Nothing is found under the entry.
    Missing,
    /// What is found under the entry is not a directory.
    NotDirectory,
}

/// What the system says of a path.
#[derive(Clone, Copy, Debug, PartialEq, Eq, Structural)]
pub enum PathKind {
    /// The path is relative.
    Relative,
    /// The path is absolute and leads nowhere.
    Missing,
    /// The path is absolute and leads to something that is no directory.
    NotDirectory,
    /// The path is absolute and leads to a directory.
    Directory,
}

/// An entry of a search path, with what the system says of it.
#[derive(Clone, Debug)]
pub struct ProbedEntry {
    pub entry: String,
    pub kind: PathKind,
}

/// The texts of some probed entries, in order.
pub open spec fn entry_texts(probed: Seq<ProbedEntry>) -> Seq<Seq<char>> {
    probed.map_values(|p: ProbedEntry| p.entry@)
}

/// What the system said of some probed entries, in order.
pub open spec fn entry_kinds(probed: Seq<ProbedEntry>) -> Seq<PathKind> {
    probed.map_values(|p: ProbedEntry| p.kind)
}

/// The complaint about one entry, if there is one. The first reason that
/// applies is the one given: empty, seen before, relative, missing, no directory.
pub open spec fn entry_issue(entry: Seq<char>, seen_before: bool, kind: PathKind) -> Option<PathIssue> {
    if entry.len() == 0 {
        Some(PathIssue::Empty)
    } else if seen_before {
        Some(PathIssue::Duplicate)
    } else {
        match kind {
            PathKind::Relative => Some(PathIssue::NotAbsolute),
            PathKind::Missing => Some(PathIssue::Missing),
            PathKind::NotDirectory => Some(PathIssue::NotDirectory),
            PathKind::Directory => None,
        }
    }
}

/// The complaint about the entry at `index`: whether it was seen before is
/// asked of the entries that stand before it, by their exact text.
pub open spec fn issue_at(entries: Seq<Seq<char>>, kinds: Seq<PathKind>, index: int) -> Option<PathIssue> {
    entry_issue(entries[index], entries.take(index).contains(entries[index]), kinds[index])
}

/// The line that states a complaint.
pub open spec fn issue_text(entry: Seq<char>, issue: PathIssue) -> Seq<char> {
    match issue {
        PathIssue::Empty => "PATH starts with or ends on ':' or contains '::' which causes it to match whatever the current directory is."@,
        PathIssue::Duplicate => entry + " is duplicated"@,
        PathIssue::NotAbsolute => entry + " is not an absolute path"@,
        PathIssue::Missing => entry + " does not exist"@,
        PathIssue::NotDirectory => entry + " is not a directory"@,
    }
}

/// The lines of a validation: one for each entry that gives reason for
/// complaint, in the order of the entries. An entry repeated several times is
/// complained about at each repetition.
pub open spec fn validation_lines(entries: Seq<Seq<char>>, kinds: Seq<PathKind>) -> Seq<OutputLineView>
    decreases entries.len(),
{
    if entries.len() == 0 {
        Seq::<OutputLineView>::empty()
    } else {
        let before = validation_lines(entries.drop_last(), kinds.drop_last());
        match entry_issue(
            entries.last(),
            entries.drop_last().contains(entries.last()),
            kinds.last(),
        ) {
            Some(issue) => before.push(report_line(issue_text(entries.last(), issue))),
            None => before,
        }
    }
}

/// A search path without fault gives no line, and no other does: the lines are
/// none exactly if no entry gives reason for complaint.
pub proof fn lemma_no_issue_no_line(entries: Seq<Seq<char>>, kinds: Seq<PathKind>)
    requires
        kinds.len() == entries.len(),
    ensures
        validation_lines(entries, kinds).len() == 0 <==> (forall|i: int|
            0 <= i < entries.len() ==> #[trigger] issue_at(entries, kinds, i) is None),
    decreases entries.len(),
{
    if entries.len() > 0 {
        let last = entries.len() - 1;
        let fewer = entries.drop_last();
        let fewer_kinds = kinds.drop_last();
        lemma_no_issue_no_line(fewer, fewer_kinds);
        assert(entries.take(last) == fewer);
        assert(issue_at(entries, kinds, last) == entry_issue(
            entries.last(),
            fewer.contains(entries.last()),
            kinds.last(),
        ));
        assert forall|i: int| 0 <= i < last implies #[trigger] issue_at(fewer, fewer_kinds, i)
            == issue_at(entries, kinds, i) by {
            assert(fewer.take(i) == entries.take(i));
        }
        if forall|i: int| 0 <= i < entries.len() ==> #[trigger] issue_at(entries, kinds, i) is None {
            assert(issue_at(entries, kinds, last) is None);
            assert forall|i: int| 0 <= i < fewer.len() implies #[trigger] issue_at(
                fewer,
                fewer_kinds,
                i,
            ) is None by {
                assert(issue_at(entries, kinds, i) is None);
            }
        }
        if validation_lines(entries, kinds).len() == 0 {
            assert(issue_at(entries, kinds, last) is None);
            assert forall|i: int| 0 <= i < entries.len() implies #[trigger] issue_at(
                entries,
                kinds,
                i,
            ) is None by {
                if i < last {
                    assert(issue_at(fewer, fewer_kinds, i) is None);
                }
            }
        }
    }
}

/// Decides what is wrong with one entry, if anything.
pub fn classify_entry(entry: &str, seen_before: bool, kind: PathKind) -> (issue: Option<PathIssue>)
    ensures
        issue == entry_issue(entry@, seen_before, kind),
{
    if entry.unicode_len() == 0 {
        Some(PathIssue::Empty)
    } else if seen_before {
        Some(PathIssue::Duplicate)
    } else {
        match kind {
            PathKind::Relative => Some(PathIssue::NotAbsolute),
            PathKind::Missing => Some(PathIssue::Missing),
            PathKind::NotDirectory => Some(PathIssue::NotDirectory),
            PathKind::Directory => None,
        }
    }
}

/// States a complaint about an entry.
pub fn issue_message(entry: &str, issue: PathIssue) -> (text: String)
    ensures
        text@ == issue_text(entry@, issue),
{
    match issue {
        PathIssue::Empty => "PATH starts with or ends on ':' or contains '::' which causes it to match whatever the current directory is.".to_owned(),
        PathIssue::Duplicate => {
            let mut text = entry.to_owned();
            text.append(" is duplicated");
            text
        },
        PathIssue::NotAbsolute => {
            let mut text = entry.to_owned();
            text.append(" is not an absolute path");
            text
        },
        PathIssue::Missing => {
            let mut text = entry.to_owned();
            text.append(" does not exist");
            text
        },
        PathIssue::NotDirectory => {
            let mut text = entry.to_owned();
            text.append(" is not a directory");
            text
        },
    }
}

/// Validates the entries of a search path, given what the system says of each.
pub fn validate_entries(probed: &Vec<ProbedEntry>) -> (lines: Vec<OutputLine>)
    ensures
        line_views(lines@) == validation_lines(entry_texts(probed@), entry_kinds(probed@)),
{
    let mut lines: Vec<OutputLine> = Vec::new();
    let mut seen = StringHashSet::new();
    let mut i: usize = 0;
    assert(line_views(lines@) == Seq::<OutputLineView>::empty());
    while i < probed.len()
        invariant
            i <= probed@.len(),
            forall|text: Seq<char>|
                seen@.contains(text) <==> (text.len() > 0 && entry_texts(probed@).take(i as int).contains(
                    text,
                )),
            line_views(lines@) == validation_lines(
                entry_texts(probed@).take(i as int),
                entry_kinds(probed@).take(i as int),
            ),
        decreases probed@.len() - i,
    {
        let ghost entries = entry_texts(probed@);
        let ghost kinds = entry_kinds(probed@);
        let ghost so_far = lines@;
        proof {
            assert(entries.take(i + 1).drop_last() == entries.take(i as int));
            assert(kinds.take(i + 1).drop_last() == kinds.take(i as int));
            assert(entries.take(i + 1).last() == probed@[i as int].entry@);
            assert(kinds.take(i + 1).last() == probed@[i as int].kind);
        }
        let entry = probed[i].entry.as_str();
        let seen_before = seen.contains(entry);
        match classify_entry(entry, seen_before, probed[i].kind) {
            Some(issue) => {
                lines.push(OutputLine::report(issue_message(entry, issue)));
                assert(line_views(lines@) == line_views(so_far).push(lines@.last()@));
            },
            None => {},
        }
        if entry.unicode_len() > 0 {
            seen.insert(entry.to_owned());
        }
        proof {
            assert forall|text: Seq<char>|
                seen@.contains(text) <==> (text.len() > 0 && entries.take(i + 1).contains(text)) by {
                let shorter = entries.take(i as int);
                let longer = entries.take(i + 1);
                assert(longer == shorter.push(entry@));
                if shorter.contains(text) {
                    let n = choose|n: int| 0 <= n < shorter.len() && shorter[n] == text;
                    assert(longer[n] == text);
                }
                if longer.contains(text) && text != entry@ {
                    let n = choose|n: int| 0 <= n < longer.len() && longer[n] == text;
                    assert(shorter[n] == text);
                }
                assert(longer[i as int] == entry@);
            }
        }
        i += 1;
    }
    proof {
        assert(entry_texts(probed@).take(i as int) == entry_texts(probed@));
        assert(entry_kinds(probed@).take(i as int) == entry_kinds(probed@));
    }
    lines
}

/// What three answers of the system make of a path: whether it is relative;
/// if it is not, whether anything is found under it; and if so, whether that is
/// a directory. A later answer counts only where the earlier ones leave the
/// matter open.
pub open spec fn answered_kind(relative: bool, found: bool, is_directory: bool) -> PathKind {
    if relative {
        PathKind::Relative
    } else if !found {
        PathKind::Missing
    } else if !is_directory {
        PathKind::NotDirectory
    } else {
        PathKind::Directory
    }
}

/// Decides what a path is, once the system has answered.
pub fn kind_from_answers(relative: bool, found: bool, is_directory: bool) -> (kind: PathKind)
    ensures
        kind == answered_kind(relative, found, is_directory),
{
    if relative {
        PathKind::Relative
    } else if !found {
        PathKind::Missing
    } else if !is_directory {
        PathKind::NotDirectory
    } else {
        PathKind::Directory
    }
}

/// Asks the system what a path is.
///
/// A relative path is not looked up, and a path that leads nowhere is not
/// asked whether it is a directory. The answers are the system's, at the moment
/// of the call: nothing is known of them here. What they make of the path is
/// decided by [`kind_from_answers`].
fn path_kind(path: &str) -> (kind: PathKind) {
    let relative = path_is_relative(path);
    let found = !relative && path_exists(path);
    let is_directory = found && path_is_dir(path);
    kind_from_answers(relative, found, is_directory)
}

/// Validates a search path.
///
/// The text is split at each `:`. Every piece is an entry, and the entries are
/// judged in order, each by the first of these that applies: it is empty; the
/// same text stands earlier; it is not absolute; nothing exists under it; what
/// exists is no directory. An entry that none applies to gives no line.
///
/// Whether a path is absolute, exists and is a directory is asked of the
/// system. The lines are those that [`validation_lines`] gives for the answers
/// that came.
pub fn validate_path(raw: &str) -> (lines: Vec<OutputLine>)
    ensures
        exists|kinds: Seq<PathKind>|
            kinds.len() == split_on(raw@, SEPARATOR).len() && line_views(lines@)
                == #[trigger] validation_lines(split_on(raw@, SEPARATOR), kinds),
{
    let entries = split_search_path(raw);
    let mut probed: Vec<ProbedEntry> = Vec::new();
    let mut i: usize = 0;
    assert(entry_texts(probed@) == texts(entries@).take(0));
    while i < entries.len()
        invariant
            i <= entries@.len(),
            probed@.len() == i,
            entry_texts(probed@) == texts(entries@).take(i as int),
        decreases entries@.len() - i,
    {
        let ghost so_far = probed@;
        let kind = path_kind(entries[i].as_str());
        probed.push(ProbedEntry { entry: entries[i].clone(), kind });
        assert(entry_texts(probed@) == entry_texts(so_far).push(entries@[i as int]@));
        assert(texts(entries@).take(i + 1) == texts(entries@).take(i as int).push(entries@[i as int]@));
        i += 1;
    }
    assert(texts(entries@).take(i as int) == texts(entries@));
    assert(entry_kinds(probed@).len() == probed@.len());
    validate_entries(&probed)
}

} // verus!

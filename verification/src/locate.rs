//! Telling in which directories of the search path a command is found.

use vstd::prelude::*;

use crate::report::{diagnostic_line, line_views, report_line, OutputLine, OutputLineView};
use crate::scan::{
    directory_unreadable_text, entry_unreadable_text, is_file_named, item_views, listing_views,
    names_file, scan, scan_diagnostic, scan_items, DirectoryListing, ScanItem, ScanItemView,
};
use crate::system::path_file_name;
use crate::text::texts;

verus! {

/// A command that is looked for: the text it was asked by, and the file name
/// that is compared with the names in the directories. A command whose text
/// has no file name in it is found nowhere.
#[derive(Clone, Debug)]
pub struct Target {
    pub command: String,
    pub name: Option<String>,
}

/// What a [`Target`] holds, its texts taken as sequences of characters.
pub struct TargetView {
    pub command: Seq<char>,
    pub name: Option<Seq<char>>,
}

impl View for Target {
    type V = TargetView;

    open spec fn view(&self) -> TargetView {
        TargetView {
            command: self.command@,
            name: match self.name {
                Some(name) => Some(name@),
                None => None,
            },
        }
    }
}

/// The targets of a sequence as the contracts see them, in order.
pub open spec fn target_views(targets: Seq<Target>) -> Seq<TargetView> {
    targets.map_values(|target: Target| target@)
}

/// The targets that stand for some commands, `names` giving the file name of each.
pub open spec fn targets_of(commands: Seq<Seq<char>>, names: Seq<Option<Seq<char>>>) -> Seq<TargetView> {
    Seq::new(commands.len(), |i: int| TargetView { command: commands[i], name: names[i] })
}

/// The target looks for files of this name. Names are compared by their exact text.
pub open spec fn looks_for(target: TargetView, filename: Seq<char>) -> bool {
    target.name == Some(filename)
}

/// Some file of the walk bears the name that the target looks for.
pub open spec fn is_found(target: TargetView, items: Seq<ScanItemView>) -> bool {
    target.name matches Some(name) && names_file(items, name)
}

/// The lines for one file of the walk: its path, once for each target that
/// looks for its name, so twice where two targets are the same.
pub open spec fn match_lines(targets: Seq<TargetView>, filename: Seq<char>, full_path: Seq<char>) -> Seq<OutputLineView>
    decreases targets.len(),
{
    if targets.len() == 0 {
        Seq::<OutputLineView>::empty()
    } else {
        let before = match_lines(targets.drop_last(), filename, full_path);
        if looks_for(targets.last(), filename) {
            before.push(report_line(full_path))
        } else {
            before
        }
    }
}

/// The lines that one item of the walk adds.
pub open spec fn located_item_lines(targets: Seq<TargetView>, item: ScanItemView) -> Seq<OutputLineView> {
    match item {
        ScanItemView::File { filename, full_path } => match_lines(targets, filename, full_path),
        ScanItemView::DirectoryUnreadable { directory, reason } => seq![
            diagnostic_line(directory_unreadable_text(directory, reason)),
        ],
        ScanItemView::EntryUnreadable { reason } => seq![
            diagnostic_line(entry_unreadable_text(reason)),
        ],
    }
}

/// The lines written during the walk, in the order of the walk.
pub open spec fn found_lines(targets: Seq<TargetView>, items: Seq<ScanItemView>) -> Seq<OutputLineView>
    decreases items.len(),
{
    if items.len() == 0 {
        Seq::<OutputLineView>::empty()
    } else {
        found_lines(targets, items.drop_last()) + located_item_lines(targets, items.last())
    }
}

/// The line that says that a command was found nowhere.
pub open spec fn not_found_text(command: Seq<char>) -> Seq<char> {
    command + " not found"@
}

/// The lines written after the walk: one for each target that no file of the
/// walk matched, in the order of the targets.
pub open spec fn missing_lines(targets: Seq<TargetView>, items: Seq<ScanItemView>) -> Seq<OutputLineView>
    decreases targets.len(),
{
    if targets.len() == 0 {
        Seq::<OutputLineView>::empty()
    } else {
        let before = missing_lines(targets.drop_last(), items);
        if is_found(targets.last(), items) {
            before
        } else {
            before.push(report_line(not_found_text(targets.last().command)))
        }
    }
}

/// All lines of a search for some targets: what the walk finds, then what it
/// did not find.
pub open spec fn locate_lines(targets: Seq<TargetView>, items: Seq<ScanItemView>) -> Seq<OutputLineView> {
    found_lines(targets, items) + missing_lines(targets, items)
}

/// Tells whether the target looks for files of this name.
fn target_matches(target: &Target, filename: &String) -> (matches: bool)
    ensures
        matches == looks_for(target@, filename@),
{
    match &target.name {
        Some(name) => *name == *filename,
        None => false,
    }
}

/// Tells where the targets are found on a walk, and which are found nowhere.
///
/// Every file of the walk whose name a target looks for gives a line with its
/// path, at its place in the walk, once for each such target. After the walk,
/// every target that no file matched gives a line saying so, in the order of
/// the targets. What could not be read gives a diagnostic in its place.
pub fn locate(targets: &Vec<Target>, items: &Vec<ScanItem>) -> (lines: Vec<OutputLine>)
    ensures
        line_views(lines@) == locate_lines(target_views(targets@), item_views(items@)),
{
    let ghost wanted = target_views(targets@);
    let ghost walk = item_views(items@);
    let mut found: Vec<bool> = Vec::new();
    let mut t: usize = 0;
    while t < targets.len()
        invariant
            t <= targets@.len(),
            found@.len() == t,
            forall|i: int| 0 <= i < t ==> !#[trigger] found@[i],
        decreases targets@.len() - t,
    {
        found.push(false);
        t += 1;
    }
    let mut lines: Vec<OutputLine> = Vec::new();
    let mut k: usize = 0;
    assert(line_views(lines@) == Seq::<OutputLineView>::empty());
    assert forall|i: int| 0 <= i < wanted.len() implies found@[i] == is_found(
        #[trigger] wanted[i],
        walk.take(0),
    ) by {}
    while k < items.len()
        invariant
            k <= items@.len(),
            wanted == target_views(targets@),
            walk == item_views(items@),
            found@.len() == targets@.len(),
            forall|i: int|
                0 <= i < wanted.len() ==> found@[i] == is_found(#[trigger] wanted[i], walk.take(k as int)),
            line_views(lines@) == found_lines(wanted, walk.take(k as int)),
        decreases items@.len() - k,
    {
        proof {
            assert(walk.take(k + 1).drop_last() == walk.take(k as int));
            assert(walk.take(k + 1).last() == items@[k as int]@);
        }
        let ghost before_item = line_views(lines@);
        match &items[k] {
            ScanItem::File { filename, full_path } => {
                let mut t: usize = 0;
                assert(wanted.take(0) == Seq::<TargetView>::empty());
                while t < targets.len()
                    invariant
                        t <= targets@.len(),
                        wanted == target_views(targets@),
                        walk == item_views(items@),
                        k < items@.len(),
                        items@[k as int]@ == (ScanItemView::File {
                            filename: filename@,
                            full_path: full_path@,
                        }),
                        found@.len() == targets@.len(),
                        forall|i: int|
                            0 <= i < t ==> found@[i] == is_found(
                                #[trigger] wanted[i],
                                walk.take(k + 1),
                            ),
                        forall|i: int|
                            t <= i < wanted.len() ==> found@[i] == is_found(
                                #[trigger] wanted[i],
                                walk.take(k as int),
                            ),
                        line_views(lines@) == before_item + match_lines(
                            wanted.take(t as int),
                            filename@,
                            full_path@,
                        ),
                    decreases targets@.len() - t,
                {
                    proof {
                        assert(wanted.take(t + 1).drop_last() == wanted.take(t as int));
                        assert(wanted.take(t + 1).last() == targets@[t as int]@);
                        lemma_found_grows(wanted[t as int], walk.take(k + 1));
                    }
                    let ghost so_far = lines@;
                    if target_matches(&targets[t], filename) {
                        lines.push(OutputLine::report(full_path.clone()));
                        found.set(t, true);
                        assert(line_views(lines@) == line_views(so_far).push(lines@.last()@));
                    }
                    t += 1;
                }
                assert(wanted.take(t as int) == wanted);
            },
            other => {
                let ghost so_far = lines@;
                match scan_diagnostic(other) {
                    Some(line) => {
                        lines.push(line);
                        assert(line_views(lines@) == line_views(so_far).push(line@));
                    },
                    None => {},
                }
                proof {
                    assert forall|i: int| 0 <= i < wanted.len() implies found@[i] == is_found(
                        #[trigger] wanted[i],
                        walk.take(k + 1),
                    ) by {
                        lemma_found_grows(wanted[i], walk.take(k + 1));
                    }
                }
            },
        }
        k += 1;
    }
    assert(walk.take(k as int) == walk);
    let ghost during = line_views(lines@);
    let mut t: usize = 0;
    assert(wanted.take(0) == Seq::<TargetView>::empty());
    while t < targets.len()
        invariant
            t <= targets@.len(),
            wanted == target_views(targets@),
            found@.len() == targets@.len(),
            forall|i: int| 0 <= i < wanted.len() ==> found@[i] == is_found(#[trigger] wanted[i], walk),
            line_views(lines@) == during + missing_lines(wanted.take(t as int), walk),
        decreases targets@.len() - t,
    {
        proof {
            assert(wanted.take(t + 1).drop_last() == wanted.take(t as int));
            assert(wanted.take(t + 1).last() == targets@[t as int]@);
            assert(wanted[t as int] == targets@[t as int]@);
        }
        let ghost so_far = lines@;
        if !found[t] {
            let mut text = targets[t].command.clone();
            text.append(" not found");
            lines.push(OutputLine::report(text));
            assert(line_views(lines@) == line_views(so_far).push(lines@.last()@));
        }
        t += 1;
    }
    assert(wanted.take(t as int) == wanted);
    lines
}

/// A target is found on a walk exactly if it was found before the last item or
/// the last item is a file of the name it looks for.
proof fn lemma_found_grows(target: TargetView, items: Seq<ScanItemView>)
    requires
        items.len() > 0,
    ensures
        is_found(target, items) <==> is_found(target, items.drop_last()) || (items.last() matches ScanItemView::File {
            filename,
            ..
        } && looks_for(target, filename)),
{
    let earlier = items.drop_last();
    match target.name {
        Some(name) => {
            if names_file(earlier, name) {
                let n = choose|n: int| 0 <= n < earlier.len() && is_file_named(#[trigger] earlier[n], name);
                assert(is_file_named(items[n], name));
            }
            if is_file_named(items.last(), name) {
                assert(is_file_named(items[items.len() - 1], name));
            }
            if names_file(items, name) {
                let n = choose|n: int| 0 <= n < items.len() && is_file_named(#[trigger] items[n], name);
                if n < items.len() - 1 {
                    assert(is_file_named(earlier[n], name));
                }
            }
        },
        None => {},
    }
}

/// Tells in which directories of the search path the commands are found.
///
/// Each command is taken as a path, and only the file name in it is looked
/// for. `listings` holds what was read of each directory, in the order of the
/// search path. The lines are those of [`locate`] on the walk over the
/// listings; a command that is found nowhere is named by its whole text.
///
/// Which part of a command is its file name is asked of the system. The lines
/// are those that [`locate_lines`] gives for the names that came.
pub fn find_positions(commands: &Vec<String>, listings: &Vec<DirectoryListing>) -> (lines: Vec<OutputLine>)
    ensures
        exists|names: Seq<Option<Seq<char>>>|
            names.len() == commands@.len() && line_views(lines@) == locate_lines(
                #[trigger] targets_of(texts(commands@), names),
                scan_items(listing_views(listings@)),
            ),
{
    let mut targets: Vec<Target> = Vec::new();
    let mut i: usize = 0;
    while i < commands.len()
        invariant
            i <= commands@.len(),
            targets@.len() == i,
            forall|j: int| 0 <= j < i ==> (#[trigger] targets@[j])@.command == commands@[j]@,
        decreases commands@.len() - i,
    {
        let name = path_file_name(commands[i].as_str());
        targets.push(Target { command: commands[i].clone(), name });
        i += 1;
    }
    let items = scan(listings);
    let lines = locate(&targets, &items);
    proof {
        let names = Seq::new(targets@.len(), |j: int| targets@[j]@.name);
        assert(target_views(targets@) =~= targets_of(texts(commands@), names));
    }
    lines
}

} // verus!

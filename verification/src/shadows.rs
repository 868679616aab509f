//! Finding the files that an earlier directory of the search path shadows.

use vstd::prelude::*;
use vstd::hash_map::StringHashMap;

use crate::policy::ShowSameFiles;
use crate::report::{diagnostic_line, line_views, report_line, OutputLine, OutputLineView};
use crate::scan::{
    directory_unreadable_text, entry_unreadable_text, item_views, listing_views, scan,
    scan_diagnostic, scan_items, DirectoryListing, ScanItem, ScanItemView,
};
use crate::system::is_same_file;

verus! {

/// A file name seen a second time: the path that won the name, the path that
/// lost it, and whether the two are one file.
#[derive(Clone, Debug)]
pub struct ShadowEvent {
    /// The path found first. A shell runs this one.
    pub shadowing_path: String,
    /// The path found later, which a shell never reaches.
    pub shadowed_path: String,
    /// Both paths lead to one file.
    pub identical: bool,
}

/// What a [`ShadowEvent`] holds, its texts taken as sequences of characters.
pub struct ShadowEventView {
    pub shadowing_path: Seq<char>,
    pub shadowed_path: Seq<char>,
    pub identical: bool,
}

impl View for ShadowEvent {
    type V = ShadowEventView;

    open spec fn view(&self) -> ShadowEventView {
        ShadowEventView {
            shadowing_path: self.shadowing_path@,
            shadowed_path: self.shadowed_path@,
            identical: self.identical,
        }
    }
}

/// The events of a sequence as the contracts see them, in order.
pub open spec fn event_views(events: Seq<ShadowEvent>) -> Seq<ShadowEventView> {
    events.map_values(|event: ShadowEvent| event@)
}

/// Two paths could not be compared, for the reason given.
#[derive(Clone, Debug)]
pub struct IdentityCheckFailed {
    pub reason: String,
}

/// What comparing two paths gave: whether they are one file, or the reason
/// why that could not be told.
pub type IdentityCheck = Result<bool, Seq<char>>;

/// The outcome of a comparison as the contracts see it.
pub open spec fn check_view(check: Result<bool, IdentityCheckFailed>) -> IdentityCheck {
    match check {
        Ok(identical) => Ok(identical),
        Err(failure) => Err(failure.reason@),
    }
}

/// The line that reports a shadowed file: the winning path, the delimiter, the
/// losing path.
pub open spec fn shadow_text(event: ShadowEventView, delim: Seq<char>) -> Seq<char> {
    event.shadowing_path + delim + event.shadowed_path
}

/// The diagnostic for two paths that could not be compared.
pub open spec fn compare_failed_text(
    shadowed_path: Seq<char>,
    shadowing_path: Seq<char>,
    reason: Seq<char>,
) -> Seq<char> {
    "Can not compare "@ + shadowed_path + " and "@ + shadowing_path + ": "@ + reason
}

/// The events that a policy lets through, in their order.
pub open spec fn visible_events(policy: ShowSameFiles, events: Seq<ShadowEventView>) -> Seq<
    ShadowEventView,
> {
    events.filter(|event: ShadowEventView| policy.admits(event.identical))
}

/// The winner of each file name after a walk: the path of the first file of
/// that name. A name once won is never lost to a later file.
pub open spec fn winners(items: Seq<ScanItemView>) -> Map<Seq<char>, Seq<char>>
    decreases items.len(),
{
    if items.len() == 0 {
        Map::<Seq<char>, Seq<char>>::empty()
    } else {
        let earlier = winners(items.drop_last());
        match items.last() {
            ScanItemView::File { filename, full_path } => if earlier.contains_key(filename) {
                earlier
            } else {
                earlier.insert(filename, full_path)
            },
            _ => earlier,
        }
    }
}

/// The line, if any, for a file whose name was won before by `shadowing_path`.
///
/// Where the comparison told whether the two are one file, the pair is reported
/// if the policy admits it. Where it failed, a diagnostic says so, and the pair
/// counts neither as one file nor as two.
pub open spec fn collision_line(
    policy: ShowSameFiles,
    shadowing_path: Seq<char>,
    shadowed_path: Seq<char>,
    check: IdentityCheck,
    delim: Seq<char>,
) -> Option<OutputLineView> {
    match check {
        Ok(identical) => if policy.admits(identical) {
            Some(
                report_line(
                    shadow_text(ShadowEventView { shadowing_path, shadowed_path, identical }, delim),
                ),
            )
        } else {
            None
        },
        Err(reason) => Some(
            diagnostic_line(compare_failed_text(shadowed_path, shadowing_path, reason)),
        ),
    }
}

/// The lines that one item of the walk adds, given the winners before it and
/// the outcome of the comparison, which counts only where the item's name was
/// won before.
pub open spec fn item_lines(
    policy: ShowSameFiles,
    earlier: Map<Seq<char>, Seq<char>>,
    item: ScanItemView,
    check: IdentityCheck,
    delim: Seq<char>,
) -> Seq<OutputLineView> {
    match item {
        ScanItemView::File { filename, full_path } => if earlier.contains_key(filename) {
            match collision_line(policy, earlier[filename], full_path, check, delim) {
                Some(line) => seq![line],
                None => Seq::<OutputLineView>::empty(),
            }
        } else {
            Seq::<OutputLineView>::empty()
        },
        ScanItemView::DirectoryUnreadable { directory, reason } => seq![
            diagnostic_line(directory_unreadable_text(directory, reason)),
        ],
        ScanItemView::EntryUnreadable { reason } => seq![
            diagnostic_line(entry_unreadable_text(reason)),
        ],
    }
}

/// The lines of a whole walk, in the order of the walk. `checks` holds one
/// outcome of a comparison for each item.
pub open spec fn shadow_lines(
    policy: ShowSameFiles,
    items: Seq<ScanItemView>,
    checks: Seq<IdentityCheck>,
    delim: Seq<char>,
) -> Seq<OutputLineView>
    decreases items.len(),
{
    if items.len() == 0 {
        Seq::<OutputLineView>::empty()
    } else {
        shadow_lines(policy, items.drop_last(), checks.drop_last(), delim) + item_lines(
            policy,
            winners(items.drop_last()),
            items.last(),
            checks.last(),
            delim,
        )
    }
}

/// What each policy lets through.
///
/// `False` keeps exactly the events whose two paths are different files, `Only`
/// exactly those whose two paths are one file, and `True` keeps all. What is
/// kept stays in its order.
pub proof fn lemma_policy_selects_by_identity(events: Seq<ShadowEventView>)
    ensures
        visible_events(ShowSameFiles::False, events) == events.filter(
            |event: ShadowEventView| !event.identical,
        ),
        visible_events(ShowSameFiles::Only, events) == events.filter(
            |event: ShadowEventView| event.identical,
        ),
        visible_events(ShowSameFiles::True, events) == events,
    decreases events.len(),
{
    reveal(Seq::filter);
    if events.len() > 0 {
        lemma_policy_selects_by_identity(events.drop_last());
        assert(events.drop_last().push(events.last()) == events);
    }
}

impl ShadowEvent {
    /// The line that reports the event.
    pub fn line(&self, delim: &str) -> (text: String)
        ensures
            text@ == shadow_text(self@, delim@),
    {
        let mut text = self.shadowing_path.clone();
        text.append(delim);
        text.append(self.shadowed_path.as_str());
        text
    }
}

/// Keeps the events that the policy admits, in their order.
pub fn filter_events(policy: ShowSameFiles, events: &Vec<ShadowEvent>) -> (shown: Vec<ShadowEvent>)
    ensures
        event_views(shown@) == visible_events(policy, event_views(events@)),
{
    let mut shown: Vec<ShadowEvent> = Vec::new();
    let mut i: usize = 0;
    proof {
        reveal(Seq::filter);
        assert(event_views(shown@) == Seq::<ShadowEventView>::empty());
    }
    while i < events.len()
        invariant
            i <= events@.len(),
            event_views(shown@) == visible_events(policy, event_views(events@).take(i as int)),
        decreases events@.len() - i,
    {
        proof {
            let views = event_views(events@);
            reveal(Seq::filter);
            assert(views.take(i + 1).drop_last() == views.take(i as int));
            assert(views.take(i + 1).last() == events@[i as int]@);
        }
        let ghost so_far = shown@;
        if policy.shows(events[i].identical) {
            let event = &events[i];
            shown.push(
                ShadowEvent {
                    shadowing_path: event.shadowing_path.clone(),
                    shadowed_path: event.shadowed_path.clone(),
                    identical: event.identical,
                },
            );
            assert(event_views(shown@) == event_views(so_far).push(events@[i as int]@));
        }
        i += 1;
    }
    assert(event_views(events@).take(i as int) == event_views(events@));
    shown
}

/// The first-seen-wins table of a walk: for each file name the path that won it.
pub struct ShadowDetector {
    table: StringHashMap<String>,
}

impl View for ShadowDetector {
    type V = Map<Seq<char>, Seq<char>>;

    closed spec fn view(&self) -> Map<Seq<char>, Seq<char>> {
        self.table@.map_values(|path: String| path@)
    }
}

impl ShadowDetector {
    /// A detector that has seen no file yet.
    pub fn new() -> (detector: ShadowDetector)
        ensures
            detector@ == Map::<Seq<char>, Seq<char>>::empty(),
    {
        let detector = ShadowDetector { table: StringHashMap::new() };
        assert(detector@ =~= Map::<Seq<char>, Seq<char>>::empty());
        detector
    }

    /// Takes the next file of the walk.
    ///
    /// A name seen for the first time is won by this file, and nothing is
    /// returned. A name won before stays with its winner, whose path is
    /// returned: this file is shadowed by it.
    pub fn observe(&mut self, filename: &str, full_path: &str) -> (incumbent: Option<String>)
        ensures
            match incumbent {
                Some(winner) => {
                    &&& old(self)@.contains_key(filename@)
                    &&& winner@ == old(self)@[filename@]
                    &&& final(self)@ == old(self)@
                },
                None => {
                    &&& !old(self)@.contains_key(filename@)
                    &&& final(self)@ == old(self)@.insert(filename@, full_path@)
                },
            },
    {
        match self.table.get(filename) {
            Some(winner) => Some(winner.clone()),
            None => {
                self.table.insert(filename.to_owned(), full_path.to_owned());
                assert(self@ =~= old(self)@.insert(filename@, full_path@));
                None
            },
        }
    }

    /// The path that has won a name, if the name was seen.
    pub fn winner(&self, filename: &str) -> (winner: Option<String>)
        ensures
            match winner {
                Some(path) => self@.contains_key(filename@) && path@ == self@[filename@],
                None => !self@.contains_key(filename@),
            },
    {
        match self.table.get(filename) {
            Some(path) => Some(path.clone()),
            None => None,
        }
    }
}

/// Takes what the file system said of two paths: its answer where it gave
/// one, and where it gave an error, the failure with the error's own text for
/// its reason.
pub fn check_from_outcome(outcome: Result<bool, std::io::Error>) -> (check: Result<
    bool,
    IdentityCheckFailed,
>)
    ensures
        match outcome {
            Ok(identical) => check == Ok::<bool, IdentityCheckFailed>(identical),
            Err(error) => check is Err && vstd::string::to_string_from_display_ensures::<
                std::io::Error,
            >(&error, check->Err_0.reason),
        },
{
    match outcome {
        Ok(identical) => Ok(identical),
        Err(error) => Err(IdentityCheckFailed { reason: error.to_string() }),
    }
}

/// Compares two paths by the files they lead to.
///
/// The answer is the file system's, at the moment of the call. Nothing is
/// known of it here but its form, which [`check_from_outcome`] gives it.
fn identity_of(first: &str, second: &str) -> (check: Result<bool, IdentityCheckFailed>) {
    check_from_outcome(is_same_file(first, second))
}

/// The diagnostic for two paths that could not be compared.
fn compare_failed(shadowed_path: &str, shadowing_path: &str, reason: &str) -> (text: String)
    ensures
        text@ == compare_failed_text(shadowed_path@, shadowing_path@, reason@),
{
    let mut text = "Can not compare ".to_owned();
    text.append(shadowed_path);
    text.append(" and ");
    text.append(shadowing_path);
    text.append(": ");
    text.append(reason);
    text
}

/// Decides what is said of a file whose name was won before by
/// `shadowing_path`, once the two paths have been compared.
pub fn report_collision(
    policy: ShowSameFiles,
    shadowing_path: &str,
    shadowed_path: &str,
    check: &Result<bool, IdentityCheckFailed>,
    delim: &str,
) -> (line: Option<OutputLine>)
    ensures
        match collision_line(policy, shadowing_path@, shadowed_path@, check_view(*check), delim@) {
            Some(expected) => line is Some && line->0@ == expected,
            None => line is None,
        },
{
    match check {
        Ok(identical) => {
            if policy.shows(*identical) {
                let event = ShadowEvent {
                    shadowing_path: shadowing_path.to_owned(),
                    shadowed_path: shadowed_path.to_owned(),
                    identical: *identical,
                };
                Some(OutputLine::report(event.line(delim)))
            } else {
                None
            }
        },
        Err(failure) => Some(
            OutputLine::diagnostic(
                compare_failed(shadowed_path, shadowing_path, failure.reason.as_str()),
            ),
        ),
    }
}

/// Reports the files of a search path that an earlier directory shadows.
///
/// `listings` holds what was read of each directory, in the order of the search
/// path. The walk goes through them once. The first file of a name wins the
/// name for good. Each later file of that name is compared with the winner by
/// the files the two paths lead to, and reported as `show_same_file` decides,
/// the winner's path first, then `delim`, then the later path. What could not
/// be read or compared gives a diagnostic in its place and stops nothing.
///
/// The comparison is the file system's. The lines are those that
/// [`shadow_lines`] gives for the outcomes that the comparisons had.
pub fn find_shadows(
    show_same_file: ShowSameFiles,
    listings: &Vec<DirectoryListing>,
    delim: &str,
) -> (lines: Vec<OutputLine>)
    ensures
        exists|checks: Seq<IdentityCheck>|
            checks.len() == scan_items(listing_views(listings@)).len() && line_views(lines@)
                == #[trigger] shadow_lines(
                show_same_file,
                scan_items(listing_views(listings@)),
                checks,
                delim@,
            ),
{
    let items = scan(listings);
    let mut detector = ShadowDetector::new();
    let mut lines: Vec<OutputLine> = Vec::new();
    let ghost mut checks: Seq<IdentityCheck> = Seq::empty();
    let mut k: usize = 0;
    assert(line_views(lines@) == Seq::<OutputLineView>::empty());
    while k < items.len()
        invariant
            k <= items@.len(),
            checks.len() == k,
            detector@ == winners(item_views(items@).take(k as int)),
            line_views(lines@) == shadow_lines(
                show_same_file,
                item_views(items@).take(k as int),
                checks,
                delim@,
            ),
        decreases items@.len() - k,
    {
        let ghost views = item_views(items@);
        let ghost so_far = lines@;
        let ghost earlier_checks = checks;
        proof {
            assert(views.take(k + 1).drop_last() == views.take(k as int));
            assert(views.take(k + 1).last() == items@[k as int]@);
        }
        match &items[k] {
            ScanItem::File { filename, full_path } => {
                match detector.observe(filename.as_str(), full_path.as_str()) {
                    Some(winner) => {
                        let check = identity_of(winner.as_str(), full_path.as_str());
                        proof {
                            checks = checks.push(check_view(check));
                        }
                        match report_collision(
                            show_same_file,
                            winner.as_str(),
                            full_path.as_str(),
                            &check,
                            delim,
                        ) {
                            Some(line) => {
                                lines.push(line);
                                assert(line_views(lines@) == line_views(so_far).push(line@));
                            },
                            None => {},
                        }
                    },
                    None => {
                        proof {
                            checks = checks.push(Ok(false));
                        }
                    },
                }
            },
            other => {
                proof {
                    checks = checks.push(Ok(false));
                }
                match scan_diagnostic(other) {
                    Some(line) => {
                        lines.push(line);
                        assert(line_views(lines@) == line_views(so_far).push(line@));
                    },
                    None => {},
                }
            },
        }
        proof {
            assert(checks.drop_last() == earlier_checks);
        }
        k += 1;
    }
    proof {
        assert(item_views(items@).take(k as int) == item_views(items@));
    }
    lines
}

} // verus!

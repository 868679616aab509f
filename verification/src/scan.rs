//! The walk over the directories of a search path.
//!
//! Reading a directory is left to the caller. What was read comes in as one
//! [`DirectoryListing`] for each entry of the search path, in the order of the
//! search path. [`scan`] turns the listings into the single stream of items that
//! the operations of this library consume.

use vstd::prelude::*;

use crate::report::{diagnostic_line, OutputLine};

verus! {

/// One item that a directory holds.
#[derive(Clone, Debug)]
pub struct DirectoryEntry {
    /// The name of the item inside its directory.
    pub filename: String,
    /// The directory's path followed by the name.
    pub full_path: String,
    /// The item is itself a directory.
    pub is_directory: bool,
}

/// What a [`DirectoryEntry`] holds, its texts taken as sequences of characters.
pub struct DirectoryEntryView {
    pub filename: Seq<char>,
    pub full_path: Seq<char>,
    pub is_directory: bool,
}

impl View for DirectoryEntry {
    type V = DirectoryEntryView;

    open spec fn view(&self) -> DirectoryEntryView {
        DirectoryEntryView {
            filename: self.filename@,
            full_path: self.full_path@,
            is_directory: self.is_directory,
        }
    }
}

/// What reading one item of a directory gave.
#[derive(Clone, Debug)]
pub enum EntryRead {
    /// The item was read.
    Entry(DirectoryEntry),
    /// The item could not be read, for the reason given.
    Unreadable { reason: String },
}

/// What a [`EntryRead`] holds, its texts taken as sequences of characters.
pub enum EntryReadView {
    Entry(DirectoryEntryView),
    Unreadable { reason: Seq<char> },
}

impl View for EntryRead {
    type V = EntryReadView;

    open spec fn view(&self) -> EntryReadView {
        match self {
            EntryRead::Entry(entry) => EntryReadView::Entry(entry@),
            EntryRead::Unreadable { reason } => EntryReadView::Unreadable { reason: reason@ },
        }
    }
}

/// What reading one directory of the search path gave.
#[derive(Clone, Debug)]
pub enum DirectoryListing {
    /// The directory was opened; its items follow in the order they were read.
    Entries(Vec<EntryRead>),
    /// The directory could not be opened, for the reason given.
    Unreadable { directory: String, reason: String },
}

/// What a [`DirectoryListing`] holds, its texts taken as sequences of characters.
pub enum DirectoryListingView {
    Entries(Seq<EntryReadView>),
    Unreadable { directory: Seq<char>, reason: Seq<char> },
}

/// The items of a listing as the contracts see them, in order.
pub open spec fn read_views(reads: Seq<EntryRead>) -> Seq<EntryReadView> {
    reads.map_values(|read: EntryRead| read@)
}

impl View for DirectoryListing {
    type V = DirectoryListingView;

    open spec fn view(&self) -> DirectoryListingView {
        match self {
            DirectoryListing::Entries(reads) => DirectoryListingView::Entries(read_views(reads@)),
            DirectoryListing::Unreadable { directory, reason } => DirectoryListingView::Unreadable {
                directory: directory@,
                reason: reason@,
            },
        }
    }
}

/// The listings of a search path as the contracts see them, in order.
pub open spec fn listing_views(listings: Seq<DirectoryListing>) -> Seq<DirectoryListingView> {
    listings.map_values(|listing: DirectoryListing| listing@)
}

/// One item of the walk: a file that some directory holds, or something that
/// could not be read on the way.
#[derive(Clone, Debug)]
pub enum ScanItem {
    /// A directory holds an item of this name that is no directory.
    File { filename: String, full_path: String },
    /// A directory of the search path could not be opened.
    DirectoryUnreadable { directory: String, reason: String },
    /// One item of a directory could not be read.
    EntryUnreadable { reason: String },
}

/// What a [`ScanItem`] holds, its texts taken as sequences of characters.
pub enum ScanItemView {
    File { filename: Seq<char>, full_path: Seq<char> },
    DirectoryUnreadable { directory: Seq<char>, reason: Seq<char> },
    EntryUnreadable { reason: Seq<char> },
}

impl View for ScanItem {
    type V = ScanItemView;

    open spec fn view(&self) -> ScanItemView {
        match self {
            ScanItem::File { filename, full_path } => ScanItemView::File {
                filename: filename@,
                full_path: full_path@,
            },
            ScanItem::DirectoryUnreadable { directory, reason } => ScanItemView::DirectoryUnreadable {
                directory: directory@,
                reason: reason@,
            },
            ScanItem::EntryUnreadable { reason } => ScanItemView::EntryUnreadable { reason: reason@ },
        }
    }
}

/// The items of a walk as the contracts see them, in order.
pub open spec fn item_views(items: Seq<ScanItem>) -> Seq<ScanItemView> {
    items.map_values(|item: ScanItem| item@)
}

/// The item is a file of the given name.
pub open spec fn is_file_named(item: ScanItemView, filename: Seq<char>) -> bool {
    item matches ScanItemView::File { filename: name, .. } && name == filename
}

/// Some item of the walk is a file of the given name.
pub open spec fn names_file(items: Seq<ScanItemView>, filename: Seq<char>) -> bool {
    exists|n: int| 0 <= n < items.len() && is_file_named(#[trigger] items[n], filename)
}

/// What one read item contributes to the walk: nothing if it is a directory,
/// else itself.
pub open spec fn entry_items(read: EntryReadView) -> Seq<ScanItemView> {
    match read {
        EntryReadView::Entry(entry) => if entry.is_directory {
            Seq::<ScanItemView>::empty()
        } else {
            seq![ScanItemView::File { filename: entry.filename, full_path: entry.full_path }]
        },
        EntryReadView::Unreadable { reason } => seq![ScanItemView::EntryUnreadable { reason }],
    }
}

/// What the items read from one directory contribute to the walk.
pub open spec fn entries_items(reads: Seq<EntryReadView>) -> Seq<ScanItemView>
    decreases reads.len(),
{
    if reads.len() == 0 {
        Seq::<ScanItemView>::empty()
    } else {
        entries_items(reads.drop_last()) + entry_items(reads.last())
    }
}

/// What one directory of the search path contributes to the walk.
pub open spec fn listing_items(listing: DirectoryListingView) -> Seq<ScanItemView> {
    match listing {
        DirectoryListingView::Entries(reads) => entries_items(reads),
        DirectoryListingView::Unreadable { directory, reason } => seq![
            ScanItemView::DirectoryUnreadable { directory, reason },
        ],
    }
}

/// The walk over all directories: what the first contributes, then the second,
/// and so on.
pub open spec fn scan_items(listings: Seq<DirectoryListingView>) -> Seq<ScanItemView>
    decreases listings.len(),
{
    if listings.len() == 0 {
        Seq::<ScanItemView>::empty()
    } else {
        scan_items(listings.drop_last()) + listing_items(listings.last())
    }
}

/// The walk over some directories and then some more is the one walk followed
/// by the other.
pub proof fn lemma_scan_of_consecutive_listings(
    first: Seq<DirectoryListingView>,
    second: Seq<DirectoryListingView>,
)
    ensures
        scan_items(first + second) == scan_items(first) + scan_items(second),
    decreases second.len(),
{
    if second.len() == 0 {
        assert(first + second == first);
        assert(scan_items(first) + scan_items(second) == scan_items(first));
    } else {
        assert((first + second).drop_last() == first + second.drop_last());
        assert((first + second).last() == second.last());
        lemma_scan_of_consecutive_listings(first, second.drop_last());
        assert(scan_items(first + second) == scan_items(first) + scan_items(second));
    }
}

/// Every directory has its place in the walk: after what the directories
/// before it contribute and before what those after it contribute. What one
/// directory gave, readable or not, changes nothing of what another contributes.
pub proof fn lemma_every_directory_is_walked(listings: Seq<DirectoryListingView>, d: int)
    requires
        0 <= d < listings.len(),
    ensures
        scan_items(listings) == scan_items(listings.take(d)) + listing_items(listings[d])
            + scan_items(listings.skip(d + 1)),
{
    let upto = listings.take(d + 1);
    assert(upto.drop_last() == listings.take(d));
    assert(upto.last() == listings[d]);
    assert(upto + listings.skip(d + 1) == listings);
    lemma_scan_of_consecutive_listings(upto, listings.skip(d + 1));
}

/// The diagnostic for a directory that could not be opened.
pub open spec fn directory_unreadable_text(directory: Seq<char>, reason: Seq<char>) -> Seq<char> {
    "Can not read directory "@ + directory + ": "@ + reason
}

/// The diagnostic for an item of a directory that could not be read.
pub open spec fn entry_unreadable_text(reason: Seq<char>) -> Seq<char> {
    "Can not read file: "@ + reason
}

/// The diagnostic for an item of the walk that stands for something unreadable.
pub fn scan_diagnostic(item: &ScanItem) -> (line: Option<OutputLine>)
    ensures
        match item@ {
            ScanItemView::File { .. } => line is None,
            ScanItemView::DirectoryUnreadable { directory, reason } => line is Some && line->0@
                == diagnostic_line(directory_unreadable_text(directory, reason)),
            ScanItemView::EntryUnreadable { reason } => line is Some && line->0@ == diagnostic_line(
                entry_unreadable_text(reason),
            ),
        },
{
    match item {
        ScanItem::File { .. } => None,
        ScanItem::DirectoryUnreadable { directory, reason } => {
            let mut text = "Can not read directory ".to_owned();
            text.append(directory.as_str());
            text.append(": ");
            text.append(reason.as_str());
            Some(OutputLine::diagnostic(text))
        },
        ScanItem::EntryUnreadable { reason } => {
            let mut text = "Can not read file: ".to_owned();
            text.append(reason.as_str());
            Some(OutputLine::diagnostic(text))
        },
    }
}

/// Appends to `items` what the items read from one directory contribute.
fn scan_entries(reads: &Vec<EntryRead>, items: &mut Vec<ScanItem>)
    ensures
        item_views(final(items)@) == item_views(old(items)@) + entries_items(read_views(reads@)),
{
    let ghost before = item_views(items@);
    let mut j: usize = 0;
    while j < reads.len()
        invariant
            j <= reads@.len(),
            item_views(items@) == before + entries_items(read_views(reads@).take(j as int)),
        decreases reads@.len() - j,
    {
        proof {
            let views = read_views(reads@);
            assert(views.take(j + 1).drop_last() == views.take(j as int));
            assert(views.take(j + 1).last() == reads@[j as int]@);
        }
        let ghost so_far = items@;
        match &reads[j] {
            EntryRead::Entry(entry) => {
                if !entry.is_directory {
                    items.push(
                        ScanItem::File {
                            filename: entry.filename.clone(),
                            full_path: entry.full_path.clone(),
                        },
                    );
                    assert(item_views(items@) == item_views(so_far).push(items@.last()@));
                }
            },
            EntryRead::Unreadable { reason } => {
                items.push(ScanItem::EntryUnreadable { reason: reason.clone() });
                assert(item_views(items@) == item_views(so_far).push(items@.last()@));
            },
        }
        j += 1;
    }
    assert(read_views(reads@).take(j as int) == read_views(reads@));
}

/// Walks the directories of a search path in order.
///
/// The listings come in the order of the search path. Within one directory the
/// items keep the order in which they were read. Directories among the items
/// are left out; what could not be read stays in the stream in its place, so
/// that one unreadable directory or item never hides what follows it.
pub fn scan(listings: &Vec<DirectoryListing>) -> (items: Vec<ScanItem>)
    ensures
        item_views(items@) == scan_items(listing_views(listings@)),
{
    let mut items: Vec<ScanItem> = Vec::new();
    let mut i: usize = 0;
    assert(item_views(items@) == Seq::<ScanItemView>::empty());
    while i < listings.len()
        invariant
            i <= listings@.len(),
            item_views(items@) == scan_items(listing_views(listings@).take(i as int)),
        decreases listings@.len() - i,
    {
        proof {
            let views = listing_views(listings@);
            assert(views.take(i + 1).drop_last() == views.take(i as int));
            assert(views.take(i + 1).last() == listings@[i as int]@);
        }
        let ghost so_far = items@;
        match &listings[i] {
            DirectoryListing::Entries(reads) => {
                scan_entries(reads, &mut items);
            },
            DirectoryListing::Unreadable { directory, reason } => {
                items.push(
                    ScanItem::DirectoryUnreadable {
                        directory: directory.clone(),
                        reason: reason.clone(),
                    },
                );
                assert(item_views(items@) == item_views(so_far).push(items@.last()@));
            },
        }
        i += 1;
    }
    assert(listing_views(listings@).take(i as int) == listing_views(listings@));
    items
}

} // verus!

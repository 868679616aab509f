//! Why the walk gives each name to the right file.
//!
//! A shell tries the directories of a search path in order, so of two files of
//! one name the one in the earlier directory is the one it runs. The lemmas
//! here show that the winners of a walk are exactly these files, whatever the
//! order in which a directory lists what it holds.

use vstd::prelude::*;

use crate::scan::{
    is_file_named, listing_items, names_file, scan_items, DirectoryListingView, ScanItemView,
};
use crate::shadows::winners;

verus! {

/// No two items of the walk are files of one name.
pub open spec fn distinct_names(items: Seq<ScanItemView>) -> bool {
    forall|m: int, n: int|
        0 <= m < n < items.len() && (#[trigger] items[m]) is File && (#[trigger] items[n]) is File
            ==> items[m]->File_filename != items[n]->File_filename
}

/// Two walks hold the same items, in whatever order.
pub open spec fn same_items(first: Seq<ScanItemView>, second: Seq<ScanItemView>) -> bool {
    forall|item: ScanItemView| first.contains(item) <==> second.contains(item)
}

/// A name has a winner exactly if some file of the walk bears it, and the
/// winner is then one of the files of that name.
pub proof fn lemma_winner_is_a_file_of_the_walk(items: Seq<ScanItemView>, filename: Seq<char>)
    ensures
        winners(items).contains_key(filename) <==> names_file(items, filename),
        winners(items).contains_key(filename) ==> items.contains(
            ScanItemView::File { filename, full_path: winners(items)[filename] },
        ),
    decreases items.len(),
{
    if items.len() > 0 {
        let earlier = items.drop_last();
        lemma_winner_is_a_file_of_the_walk(earlier, filename);
        if names_file(earlier, filename) {
            let n = choose|n: int| 0 <= n < earlier.len() && is_file_named(#[trigger] earlier[n], filename);
            assert(is_file_named(items[n], filename));
            let won = ScanItemView::File { filename, full_path: winners(earlier)[filename] };
            let m = choose|m: int| 0 <= m < earlier.len() && earlier[m] == won;
            assert(items[m] == won);
        } else if is_file_named(items.last(), filename) {
            assert(is_file_named(items[items.len() - 1], filename));
            assert(items[items.len() - 1] == ScanItemView::File {
                filename,
                full_path: winners(items)[filename],
            });
        } else {
            if names_file(items, filename) {
                let n = choose|n: int| 0 <= n < items.len() && is_file_named(#[trigger] items[n], filename);
                assert(is_file_named(earlier[n], filename));
            }
        }
    }
}

/// The first file of a name wins the name: no file after it takes it away.
pub proof fn lemma_first_file_wins(items: Seq<ScanItemView>, k: int)
    requires
        0 <= k < items.len(),
        items[k] is File,
        forall|m: int| 0 <= m < k ==> !is_file_named(#[trigger] items[m], items[k]->File_filename),
    ensures
        winners(items).contains_key(items[k]->File_filename),
        winners(items)[items[k]->File_filename] == items[k]->File_full_path,
    decreases items.len(),
{
    let filename = items[k]->File_filename;
    let earlier = items.drop_last();
    if k == items.len() - 1 {
        lemma_winner_is_a_file_of_the_walk(earlier, filename);
        if names_file(earlier, filename) {
            let n = choose|n: int| 0 <= n < earlier.len() && is_file_named(#[trigger] earlier[n], filename);
            assert(is_file_named(items[n], filename));
        }
    } else {
        assert(earlier[k] == items[k]);
        assert forall|m: int| 0 <= m < k implies !is_file_named(#[trigger] earlier[m], filename) by {
            assert(earlier[m] == items[m]);
        }
        lemma_first_file_wins(earlier, k);
    }
}

/// The winners of one walk followed by another: the first walk's winners keep
/// their names, and the second walk's winners get the names that are left.
pub proof fn lemma_winners_of_consecutive_walks(first: Seq<ScanItemView>, second: Seq<ScanItemView>)
    ensures
        winners(first + second) == winners(second).union_prefer_right(winners(first)),
    decreases second.len(),
{
    if second.len() == 0 {
        assert(first + second == first);
        assert(winners(first) =~= winners(second).union_prefer_right(winners(first)));
    } else {
        assert((first + second).drop_last() == first + second.drop_last());
        assert((first + second).last() == second.last());
        lemma_winners_of_consecutive_walks(first, second.drop_last());
        assert(winners(first + second) =~= winners(second).union_prefer_right(winners(first)));
    }
}

/// What [`lemma_winners_of_a_directory_ignore_order`] says, of one name.
proof fn lemma_same_winner_of_a_name(
    first: Seq<ScanItemView>,
    second: Seq<ScanItemView>,
    filename: Seq<char>,
)
    requires
        same_items(first, second),
        distinct_names(first),
    ensures
        winners(first).contains_key(filename) == winners(second).contains_key(filename),
        winners(first).contains_key(filename) ==> winners(first)[filename] == winners(second)[filename],
{
    lemma_winner_is_a_file_of_the_walk(first, filename);
    lemma_winner_is_a_file_of_the_walk(second, filename);
    if names_file(first, filename) {
        let n = choose|n: int| 0 <= n < first.len() && is_file_named(#[trigger] first[n], filename);
        assert(first.contains(first[n]));
        let m = choose|m: int| 0 <= m < second.len() && second[m] == first[n];
        assert(is_file_named(second[m], filename));
    }
    if names_file(second, filename) {
        let n = choose|n: int| 0 <= n < second.len() && is_file_named(#[trigger] second[n], filename);
        assert(second.contains(second[n]));
        let m = choose|m: int| 0 <= m < first.len() && first[m] == second[n];
        assert(is_file_named(first[m], filename));
    }
    if winners(first).contains_key(filename) {
        let won = ScanItemView::File { filename, full_path: winners(first)[filename] };
        let other = ScanItemView::File { filename, full_path: winners(second)[filename] };
        assert(second.contains(other));
        assert(first.contains(other));
        let a = choose|a: int| 0 <= a < first.len() && first[a] == won;
        let b = choose|b: int| 0 <= b < first.len() && first[b] == other;
        assert(a == b);
    }
}

/// Within one directory the order of the listing does not matter, as long as no
/// two files there share a name.
pub proof fn lemma_winners_of_a_directory_ignore_order(
    first: Seq<ScanItemView>,
    second: Seq<ScanItemView>,
)
    requires
        same_items(first, second),
        distinct_names(first),
    ensures
        winners(first) == winners(second),
{
    assert forall|filename: Seq<char>|
        winners(first).dom().contains(filename) == #[trigger] winners(second).dom().contains(
            filename,
        ) by {
        lemma_same_winner_of_a_name(first, second, filename);
    }
    assert forall|filename: Seq<char>| #[trigger]
        winners(first).dom().contains(filename) implies winners(first)[filename] == winners(
        second,
    )[filename] by {
        lemma_same_winner_of_a_name(first, second, filename);
    }
    assert(winners(first).dom() =~= winners(second).dom());
    assert(winners(first) =~= winners(second));
}

/// A name that no directory up to a point holds has no winner up to that point.
proof fn lemma_name_unseen_so_far(listings: Seq<DirectoryListingView>, filename: Seq<char>)
    requires
        forall|k: int| 0 <= k < listings.len() ==> !names_file(#[trigger] listing_items(listings[k]), filename),
    ensures
        !winners(scan_items(listings)).contains_key(filename),
    decreases listings.len(),
{
    if listings.len() > 0 {
        let earlier = listings.drop_last();
        assert forall|k: int| 0 <= k < earlier.len() implies !names_file(
            #[trigger] listing_items(earlier[k]),
            filename,
        ) by {
            assert(earlier[k] == listings[k]);
        }
        lemma_name_unseen_so_far(earlier, filename);
        lemma_winners_of_consecutive_walks(scan_items(earlier), listing_items(listings.last()));
        lemma_winner_is_a_file_of_the_walk(listing_items(listings.last()), filename);
        assert(listings.last() == listings[listings.len() - 1]);
    }
}

/// The first directory that holds a name decides its winner: the winner of the
/// whole walk is the winner within that directory.
pub proof fn lemma_first_directory_wins(
    listings: Seq<DirectoryListingView>,
    d: int,
    filename: Seq<char>,
)
    requires
        0 <= d < listings.len(),
        names_file(listing_items(listings[d]), filename),
        forall|k: int| 0 <= k < d ==> !names_file(#[trigger] listing_items(listings[k]), filename),
    ensures
        winners(scan_items(listings)).contains_key(filename),
        winners(listing_items(listings[d])).contains_key(filename),
        winners(scan_items(listings))[filename] == winners(listing_items(listings[d]))[filename],
    decreases listings.len(),
{
    let earlier = listings.drop_last();
    lemma_winners_of_consecutive_walks(scan_items(earlier), listing_items(listings.last()));
    lemma_winner_is_a_file_of_the_walk(listing_items(listings[d]), filename);
    if d == listings.len() - 1 {
        assert forall|k: int| 0 <= k < earlier.len() implies !names_file(
            #[trigger] listing_items(earlier[k]),
            filename,
        ) by {
            assert(earlier[k] == listings[k]);
        }
        lemma_name_unseen_so_far(earlier, filename);
    } else {
        assert(earlier[d] == listings[d]);
        assert forall|k: int| 0 <= k < d implies !names_file(
            #[trigger] listing_items(earlier[k]),
            filename,
        ) by {
            assert(earlier[k] == listings[k]);
        }
        lemma_first_directory_wins(earlier, d, filename);
    }
}

/// The first directory, not after `i`, that holds a file of the name.
proof fn first_directory_holding(
    listings: Seq<DirectoryListingView>,
    i: int,
    filename: Seq<char>,
) -> (d: int)
    requires
        0 <= i < listings.len(),
        names_file(listing_items(listings[i]), filename),
    ensures
        0 <= d <= i,
        names_file(listing_items(listings[d]), filename),
        forall|k: int| 0 <= k < d ==> !names_file(#[trigger] listing_items(listings[k]), filename),
    decreases i,
{
    if exists|k: int| 0 <= k < i && names_file(#[trigger] listing_items(listings[k]), filename) {
        let k = choose|k: int| 0 <= k < i && names_file(#[trigger] listing_items(listings[k]), filename);
        first_directory_holding(listings, k, filename)
    } else {
        i
    }
}

/// Of two directories that hold a file of one name, the earlier one prevails.
///
/// Let directory `i` stand before directory `j` on the search path, and let both
/// hold a file of the name. Then the name has a winner, and the winner is a
/// file of that name in directory `i` or in one before it, never one that only
/// a later directory holds. If no directory before `i` holds the name, the
/// winner is a file of directory `i`.
pub proof fn lemma_earlier_directory_shadows_later(
    listings: Seq<DirectoryListingView>,
    i: int,
    j: int,
    filename: Seq<char>,
)
    requires
        0 <= i < j < listings.len(),
        names_file(listing_items(listings[i]), filename),
        names_file(listing_items(listings[j]), filename),
    ensures
        winners(scan_items(listings)).contains_key(filename),
        exists|d: int|
            0 <= d <= i && (#[trigger] listing_items(listings[d])).contains(
                ScanItemView::File {
                    filename,
                    full_path: winners(scan_items(listings))[filename],
                },
            ),
        (forall|k: int| 0 <= k < i ==> !names_file(#[trigger] listing_items(listings[k]), filename))
            ==> listing_items(listings[i]).contains(
            ScanItemView::File { filename, full_path: winners(scan_items(listings))[filename] },
        ),
{
    let d = first_directory_holding(listings, i, filename);
    lemma_first_directory_wins(listings, d, filename);
    lemma_winner_is_a_file_of_the_walk(listing_items(listings[d]), filename);
    if forall|k: int| 0 <= k < i ==> !names_file(#[trigger] listing_items(listings[k]), filename) {
        assert(d == i);
    }
}

/// The winners do not depend on the order in which a directory lists its files.
///
/// Take two readings of the same search path that differ only in the order of
/// the items within each directory, where no directory holds two files of one
/// name. Both walks give every name to the same path.
pub proof fn lemma_listing_order_is_irrelevant(
    first: Seq<DirectoryListingView>,
    second: Seq<DirectoryListingView>,
)
    requires
        first.len() == second.len(),
        forall|d: int|
            0 <= d < first.len() ==> same_items(
                #[trigger] listing_items(first[d]),
                listing_items(second[d]),
            ),
        forall|d: int| 0 <= d < first.len() ==> distinct_names(#[trigger] listing_items(first[d])),
    ensures
        winners(scan_items(first)) == winners(scan_items(second)),
    decreases first.len(),
{
    if first.len() > 0 {
        let a = first.drop_last();
        let b = second.drop_last();
        assert forall|d: int| 0 <= d < a.len() implies same_items(
            #[trigger] listing_items(a[d]),
            listing_items(b[d]),
        ) by {
            assert(a[d] == first[d] && b[d] == second[d]);
        }
        assert forall|d: int| 0 <= d < a.len() implies distinct_names(#[trigger] listing_items(a[d])) by {
            assert(a[d] == first[d]);
        }
        lemma_listing_order_is_irrelevant(a, b);
        assert(first.last() == first[first.len() - 1]);
        assert(second.last() == second[first.len() - 1]);
        lemma_winners_of_a_directory_ignore_order(
            listing_items(first.last()),
            listing_items(second.last()),
        );
        lemma_winners_of_consecutive_walks(scan_items(a), listing_items(first.last()));
        lemma_winners_of_consecutive_walks(scan_items(b), listing_items(second.last()));
    }
}

} // verus!

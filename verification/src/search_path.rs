//! The search path: directories in the order in which a shell tries them.

use vstd::prelude::*;

use crate::text::texts;

verus! {

/// The character that stands between two entries of a search path.
pub const SEPARATOR: char = ':';

/// The pieces of `text` between the occurrences of `separator`, in order.
///
/// There is always one piece more than there are separators: an empty text has
/// one empty piece, and a separator at either end has an empty piece beside it.
pub open spec fn split_on(text: Seq<char>, separator: char) -> Seq<Seq<char>>
    decreases text.len(),
{
    if text.len() == 0 {
        seq![Seq::<char>::empty()]
    } else {
        let before = split_on(text.drop_last(), separator);
        if text.last() == separator {
            before.push(Seq::<char>::empty())
        } else {
            before.drop_last().push(before.last().push(text.last()))
        }
    }
}

/// The pieces put together again, with `separator` between each two.
pub open spec fn join_with(pieces: Seq<Seq<char>>, separator: char) -> Seq<char>
    decreases pieces.len(),
{
    if pieces.len() == 0 {
        Seq::<char>::empty()
    } else if pieces.len() == 1 {
        pieces[0]
    } else {
        join_with(pieces.drop_last(), separator).push(separator) + pieces.last()
    }
}

/// Splitting loses nothing: there is at least one piece, no piece holds the
/// separator, and the pieces joined by the separator are the text again.
pub proof fn lemma_split_then_join(text: Seq<char>, separator: char)
    ensures
        split_on(text, separator).len() >= 1,
        forall|i: int|
            0 <= i < split_on(text, separator).len() ==> !(#[trigger] split_on(text, separator)[i]).contains(
                separator,
            ),
        join_with(split_on(text, separator), separator) == text,
    decreases text.len(),
{
    if text.len() > 0 {
        let shorter = text.drop_last();
        let before = split_on(shorter, separator);
        let pieces = split_on(text, separator);
        lemma_split_then_join(shorter, separator);
        if text.last() == separator {
            assert(pieces.drop_last() == before);
            assert(join_with(pieces, separator) == shorter.push(separator) + Seq::<char>::empty());
            assert(shorter.push(separator) + Seq::<char>::empty() == text);
            assert forall|i: int| 0 <= i < pieces.len() implies !(#[trigger] pieces[i]).contains(
                separator,
            ) by {
                if i < before.len() {
                    assert(pieces[i] == before[i]);
                }
            }
        } else {
            let grown = before.last().push(text.last());
            assert(pieces.last() == grown);
            assert(pieces.drop_last() == before.drop_last());
            assert forall|i: int| 0 <= i < pieces.len() implies !(#[trigger] pieces[i]).contains(
                separator,
            ) by {
                if i < before.len() - 1 {
                    assert(pieces[i] == before[i]);
                } else {
                    assert(!before[before.len() - 1].contains(separator));
                    if grown.contains(separator) {
                        let n = choose|n: int| 0 <= n < grown.len() && grown[n] == separator;
                        assert(before.last()[n] == separator);
                    }
                }
            }
            if before.len() == 1 {
                assert(join_with(pieces, separator) == grown);
                assert(grown == text);
            } else {
                let head = join_with(before.drop_last(), separator).push(separator);
                assert(join_with(pieces, separator) == head + grown);
                assert(head + grown == (head + before.last()).push(text.last()));
                assert(shorter.push(text.last()) == text);
            }
        }
    } else {
        assert(join_with(split_on(text, separator), separator) == text);
    }
}

/// Splitting finds the pieces that were joined: of one piece or more, none
/// holding the separator, joined by the separator, it gives back each piece.
pub proof fn lemma_join_then_split(pieces: Seq<Seq<char>>, separator: char)
    requires
        pieces.len() >= 1,
        forall|i: int| 0 <= i < pieces.len() ==> !(#[trigger] pieces[i]).contains(separator),
    ensures
        split_on(join_with(pieces, separator), separator) == pieces,
    decreases join_with(pieces, separator).len(),
{
    let text = join_with(pieces, separator);
    let count = pieces.len() as int;
    if pieces.last().len() == 0 {
        assert(pieces.last() == Seq::<char>::empty());
        if count == 1 {
            assert(pieces == seq![Seq::<char>::empty()]);
        } else {
            let fewer = pieces.drop_last();
            assert(text == join_with(fewer, separator).push(separator));
            assert(text.drop_last() == join_with(fewer, separator));
            assert forall|i: int| 0 <= i < fewer.len() implies !(#[trigger] fewer[i]).contains(
                separator,
            ) by {
                assert(fewer[i] == pieces[i]);
            }
            lemma_join_then_split(fewer, separator);
            assert(fewer.push(Seq::<char>::empty()) == pieces);
        }
    } else {
        let last = pieces.last();
        let c = last.last();
        assert(last[last.len() - 1] == c);
        assert(!pieces[count - 1].contains(separator));
        assert(c != separator);
        let trimmed = pieces.drop_last().push(last.drop_last());
        assert(trimmed.drop_last() == pieces.drop_last());
        assert(trimmed.last() == last.drop_last());
        if count == 1 {
            assert(join_with(trimmed, separator) == last.drop_last());
            assert(text == last);
        } else {
            let head = join_with(pieces.drop_last(), separator).push(separator);
            assert(text == head + last);
            assert(join_with(trimmed, separator) == head + last.drop_last());
            assert((head + last).drop_last() == head + last.drop_last());
            assert((head + last).last() == c);
        }
        assert(text.drop_last() == join_with(trimmed, separator));
        assert(text.last() == c);
        assert forall|i: int| 0 <= i < trimmed.len() implies !(#[trigger] trimmed[i]).contains(
            separator,
        ) by {
            if i < count - 1 {
                assert(trimmed[i] == pieces[i]);
            } else {
                if trimmed[i].contains(separator) {
                    let n = choose|n: int| 0 <= n < trimmed[i].len() && trimmed[i][n] == separator;
                    assert(last[n] == separator);
                }
            }
        }
        lemma_join_then_split(trimmed, separator);
        assert(trimmed.drop_last().push(trimmed.last().push(c)) == pieces) by {
            assert(last.drop_last().push(c) == last);
            assert(pieces.drop_last().push(last) == pieces);
        }
    }
}

/// Neither a search path was given nor could one be had from the environment.
#[derive(Clone, Copy, Debug, PartialEq, Eq, Structural)]
pub struct SourceUnavailable;

/// Picks the search path to work on: the one given explicitly if there is one,
/// else the one of the environment. Where there is neither, nothing can be done.
pub fn resolve_source(explicit: Option<String>, environment: Option<String>) -> (source: Result<
    String,
    SourceUnavailable,
>)
    ensures
        source == match (explicit, environment) {
            (Some(given), _) => Ok::<String, SourceUnavailable>(given),
            (None, Some(inherited)) => Ok::<String, SourceUnavailable>(inherited),
            (None, None) => Err::<String, SourceUnavailable>(SourceUnavailable),
        },
{
    match explicit {
        Some(given) => Ok(given),
        None => match environment {
            Some(inherited) => Ok(inherited),
            None => Err(SourceUnavailable),
        },
    }
}

/// The entries of a search path, in the order a shell tries them.
pub fn split_search_path(raw: &str) -> (entries: Vec<String>)
    ensures
        texts(entries@) == split_on(raw@, SEPARATOR),
{
    let length: usize = raw.unicode_len();
    let mut entries: Vec<String> = Vec::new();
    let mut start: usize = 0;
    let mut i: usize = 0;
    for c in it: raw.chars()
        invariant
            i == it.index(),
            it.seq() == raw@,
            raw@.len() == length,
            start <= i <= raw@.len(),
            texts(entries@) == split_on(raw@.take(i as int), SEPARATOR).drop_last(),
            raw@.subrange(start as int, i as int) == split_on(raw@.take(i as int), SEPARATOR).last(),
            split_on(raw@.take(i as int), SEPARATOR).len() > 0,
    {
        proof {
            assert(raw@.take(i + 1).drop_last() == raw@.take(i as int));
            assert(raw@.take(i + 1).last() == c);
        }
        let ghost before = split_on(raw@.take(i as int), SEPARATOR);
        if c == SEPARATOR {
            let piece = raw.substring_char(start, i);
            entries.push(piece.to_owned());
            start = i + 1;
            proof {
                assert(texts(entries@) == before.drop_last().push(before.last()));
                assert(before.drop_last().push(before.last()) == before);
                assert(before.push(Seq::<char>::empty()).drop_last() == before);
                assert(raw@.subrange(start as int, i + 1) == Seq::<char>::empty());
            }
        } else {
            proof {
                let after = before.drop_last().push(before.last().push(c));
                assert(after.drop_last() == before.drop_last());
                assert(raw@.subrange(start as int, i + 1) == raw@.subrange(start as int, i as int).push(c));
            }
        }
        i = i + 1;
    }
    let piece = raw.substring_char(start, i);
    entries.push(piece.to_owned());
    proof {
        let all = split_on(raw@, SEPARATOR);
        assert(raw@.take(i as int) == raw@);
        assert(texts(entries@) == all.drop_last().push(all.last()));
        assert(all.drop_last().push(all.last()) == all);
    }
    entries
}

} // verus!

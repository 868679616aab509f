//! Which collisions are reported.

use vstd::prelude::*;

use crate::text::same_text;

verus! {

/// Whether pairs of paths that name one and the same file are reported.
///
/// A collision is between two paths of the same file name. Either both lead to
/// one file (a link, most often) or they are two files. The three values pick
/// the collisions of the second kind, of both kinds, or of the first kind.
#[derive(Clone, Copy, Debug, PartialEq, Eq, Structural)]
pub enum ShowSameFiles {
    /// Only pairs of different files.
    False,
    /// Every pair.
    True,
    /// Only pairs that are the same file.
    Only,
}

impl ShowSameFiles {
    /// Pairs that are one file are admitted.
    pub open spec fn admits_same(self) -> bool {
        self != ShowSameFiles::False
    }

    /// Pairs of two different files are admitted.
    pub open spec fn admits_diff(self) -> bool {
        self != ShowSameFiles::Only
    }

    /// The collision is reported, `identical` saying that its two paths are one file.
    pub open spec fn admits(self, identical: bool) -> bool {
        if identical {
            self.admits_same()
        } else {
            self.admits_diff()
        }
    }

    pub fn show_same(&self) -> (shown: bool)
        ensures
            shown == self.admits_same(),
    {
        match *self {
            ShowSameFiles::False => false,
            ShowSameFiles::True | ShowSameFiles::Only => true,
        }
    }

    pub fn show_diff(&self) -> (shown: bool)
        ensures
            shown == self.admits_diff(),
    {
        match *self {
            ShowSameFiles::False | ShowSameFiles::True => true,
            ShowSameFiles::Only => false,
        }
    }

    /// Decides whether a collision is reported.
    pub fn shows(&self, identical: bool) -> (shown: bool)
        ensures
            shown == self.admits(identical),
            *self == ShowSameFiles::False ==> shown == !identical,
            *self == ShowSameFiles::True ==> shown,
            *self == ShowSameFiles::Only ==> shown == identical,
    {
        (identical && self.show_same()) || (!identical && self.show_diff())
    }

    /// The value that a name stands for: `false`, `true` and `only` are the names.
    pub open spec fn named(name: Seq<char>) -> Option<ShowSameFiles> {
        if name == "false"@ {
            Some(ShowSameFiles::False)
        } else if name == "true"@ {
            Some(ShowSameFiles::True)
        } else if name == "only"@ {
            Some(ShowSameFiles::Only)
        } else {
            None
        }
    }

    /// Reads a value from its name. Any other text is refused as an invalid option.
    pub fn from_str(s: &str) -> (parsed: Result<ShowSameFiles, &'static str>)
        ensures
            match parsed {
                Ok(value) => Self::named(s@) == Some(value),
                Err(message) => Self::named(s@) is None && message@ == "invalid option"@,
            },
    {
        if same_text(s, "false") {
            Ok(ShowSameFiles::False)
        } else if same_text(s, "true") {
            Ok(ShowSameFiles::True)
        } else if same_text(s, "only") {
            Ok(ShowSameFiles::Only)
        } else {
            Err("invalid option")
        }
    }
}

} // verus!

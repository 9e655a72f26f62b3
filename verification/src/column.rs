//! Column selectors: which header field plays the X or Epoch role.

use vstd::prelude::*;

verus! {

/// A tri-state matcher for a header column: either no column is selected,
/// a column is selected by its zero-based position, or by its exact title.
pub enum Column {
    /// No column selected: matches nothing.
    Unset,
    /// Matches the field at exactly this zero-based position.
    Index(usize),
    /// Matches any field whose title equals this string exactly
    /// (case-sensitive).
    Title(String),
}

impl Column {
    /// What `matches` returns, over the title's character sequence.
    pub open spec fn spec_matches(self, title: Seq<char>, position: int) -> bool {
        match self {
            Column::Unset => false,
            Column::Index(i) => position == i,
            Column::Title(t) => title == t@,
        }
    }

    /// True iff the header field with this `title` at this `position`
    /// is the one the selector designates.
    pub fn matches(&self, title: &String, position: usize) -> (r: bool)
        ensures
            r == self.spec_matches(title@, position as int),
    {
        match self {
            Column::Unset => false,
            Column::Index(i) => position == *i,
            Column::Title(t) => *title == *t,
        }
    }

    /// True iff this selector designates some column at all.
    pub fn is_set(&self) -> (r: bool)
        ensures
            r == !(self is Unset),
    {
        match self {
            Column::Unset => false,
            _ => true,
        }
    }
}

} // verus!

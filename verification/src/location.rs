use vstd::prelude::*;

verus! {

/// A place in the source text.
///
/// With `length == 0` a value is a position: the byte offset of a character
/// together with its line and column, all counted from zero. With a length it
/// is a range: the position of its first character and the number of bytes it
/// covers.
#[derive(Debug, PartialEq, Eq, Clone, Copy, Structural)]
pub struct Location {
    pub index: usize,
    pub line: usize,
    pub column: usize,
    pub length: usize,
}

/// `a + b`, held at the largest value a `usize` can take.
pub open spec fn clamped_add(a: int, b: int) -> int {
    if a + b > usize::MAX {
        usize::MAX as int
    } else {
        a + b
    }
}

/// `a - b`, held at zero.
pub open spec fn clamped_sub(a: int, b: int) -> int {
    if a < b {
        0
    } else {
        a - b
    }
}

impl Location {
    /// The byte offset one past the last byte of the range.
    pub open spec fn end(self) -> int {
        clamped_add(self.index as int, self.length as int)
    }

    /// The position at which a range starts.
    pub open spec fn start(self) -> Location {
        Location { index: self.index, line: self.line, column: self.column, length: 0 }
    }

    /// The range that begins where `self` begins and ends where `other` ends.
    /// Where `other` ends before `self` begins the result is empty.
    pub open spec fn join(self, other: Location) -> Location {
        Location {
            index: self.index,
            line: self.line,
            column: self.column,
            length: clamped_sub(other.end(), self.index as int) as usize,
        }
    }

    /// The range of `length` bytes that begins at `self`.
    pub open spec fn with_length(self, length: usize) -> Location {
        Location { index: self.index, line: self.line, column: self.column, length }
    }

    /// The position at byte `index`, in line `line` at column `column`.
    pub fn new_position(index: usize, line: usize, column: usize) -> (r: Location)
        ensures
            r == (Location { index, line, column, length: 0 }),
    {
        Location { index, line, column, length: 0 }
    }

    /// The range of `length` bytes from byte `index`, in line `line` at column
    /// `column`.
    pub fn new_range(index: usize, line: usize, column: usize, length: usize) -> (r: Location)
        ensures
            r == (Location { index, line, column, length }),
    {
        Location { index, line, column, length }
    }

    /// The range of `length` bytes that begins at `position`.
    pub fn from_position_and_length(position: &Location, length: usize) -> (r: Location)
        ensures
            r == position.with_length(length),
    {
        Location { index: position.index, line: position.line, column: position.column, length }
    }

    /// The range from one position up to, and without, another.
    pub fn from_position_pair(position_start: &Location, position_end: &Location) -> (r: Location)
        ensures
            r == position_start.with_length(
                clamped_sub(position_end.index as int, position_start.index as int) as usize,
            ),
    {
        Location {
            index: position_start.index,
            line: position_start.line,
            column: position_start.column,
            length: position_end.index.saturating_sub(position_start.index),
        }
    }

    /// Joins two ranges into the one that covers both and what lies between.
    pub fn from_range_pair(range_start: &Location, range_end: &Location) -> (r: Location)
        ensures
            r == range_start.join(*range_end),
    {
        let end = range_end.index.saturating_add(range_end.length);
        Location {
            index: range_start.index,
            line: range_start.line,
            column: range_start.column,
            length: end.saturating_sub(range_start.index),
        }
    }

    /// The position at which the range begins.
    pub fn get_position_by_range_start(&self) -> (r: Location)
        ensures
            r == self.start(),
    {
        Location { index: self.index, line: self.line, column: self.column, length: 0 }
    }
}

} // verus!

use vstd::prelude::*;
use crate::location::{clamped_add, clamped_sub, Location};

verus! {

/// How many bytes the UTF-8 form of a character takes.
pub open spec fn utf8_length(c: char) -> int {
    if (c as u32) < 0x80 {
        1
    } else if (c as u32) < 0x800 {
        2
    } else if (c as u32) < 0x1_0000 {
        3
    } else {
        4
    }
}

/// The position of the character that follows `c`, where `c` stands at
/// `position`: behind a line feed the next line begins, at column 0.
pub open spec fn position_behind(position: Location, c: char) -> Location {
    if c == '\n' {
        Location {
            index: clamped_add(position.index as int, utf8_length(c)) as usize,
            line: clamped_add(position.line as int, 1) as usize,
            column: 0,
            length: 0,
        }
    } else {
        Location {
            index: clamped_add(position.index as int, utf8_length(c)) as usize,
            line: position.line,
            column: clamped_add(position.column as int, 1) as usize,
            length: 0,
        }
    }
}

/// The position behind the characters `chars[from..to]`, where the first
/// of them stands at `position`.
pub open spec fn position_past(position: Location, chars: Seq<char>, from: int, to: int)
    -> Location
    decreases to - from,
{
    if from < to && 0 <= from < chars.len() {
        position_past(position_behind(position, chars[from]), chars, from + 1, to)
    } else {
        position.start()
    }
}

/// The range of the characters `chars[from..to]`, where the first of them
/// stands at `position`.
pub open spec fn span(position: Location, chars: Seq<char>, from: int, to: int) -> Location {
    position.with_length(
        clamped_sub(
            position_past(position, chars, from, to).index as int,
            position.index as int,
        ) as usize,
    )
}

/// The position of the character that follows `c`.
pub fn advance(position: &Location, c: char) -> (r: Location)
    ensures
        r == position_behind(*position, c),
{
    let code = c as u32;
    let length: usize = if code < 0x80 {
        1
    } else if code < 0x800 {
        2
    } else if code < 0x1_0000 {
        3
    } else {
        4
    };
    if c == '\n' {
        Location {
            index: position.index.saturating_add(length),
            line: position.line.saturating_add(1),
            column: 0,
            length: 0,
        }
    } else {
        Location {
            index: position.index.saturating_add(length),
            line: position.line,
            column: position.column.saturating_add(1),
            length: 0,
        }
    }
}

/// The position behind the characters `chars[from..to]`.
pub fn advance_past(position: &Location, chars: &Vec<char>, from: usize, to: usize) -> (r: Location)
    requires
        from <= to <= chars.len(),
    ensures
        r == position_past(*position, chars@, from as int, to as int),
{
    let mut current = position.get_position_by_range_start();
    let mut i = from;
    while i < to
        invariant
            from <= i <= to <= chars.len(),
            current.length == 0,
            position_past(*position, chars@, from as int, to as int) == position_past(
                current,
                chars@,
                i as int,
                to as int,
            ),
        decreases to - i,
    {
        current = advance(&current, chars[i]);
        i += 1;
    }
    current
}

/// A character with the position at which it stands.
#[derive(Debug, PartialEq, Eq, Clone, Copy, Structural)]
pub struct CharWithPosition {
    pub character: char,
    pub position: Location,
}

/// Hands out the characters of a text one by one, each with its position.
pub struct CharsWithPositionIter {
    chars: Vec<char>,
    next: usize,
    position: Location,
}

impl CharsWithPositionIter {
    /// The characters that are still to hand out.
    pub closed spec fn remaining(&self) -> Seq<char> {
        self.chars@.skip(self.next as int)
    }

    /// The position of the next character.
    pub closed spec fn position(&self) -> Location {
        self.position
    }

    #[verifier::type_invariant]
    spec fn within(&self) -> bool {
        self.next <= self.chars.len()
    }

    /// Begins at the first character, at byte 0 of line 0.
    pub fn new(chars: Vec<char>) -> (r: CharsWithPositionIter)
        ensures
            r.remaining() == chars@,
            r.position() == (Location { index: 0, line: 0, column: 0, length: 0 }),
    {
        let r = CharsWithPositionIter { chars, next: 0, position: Location::new_position(0, 0, 0) };
        assert(r.chars@.skip(0) =~= r.chars@);
        r
    }

    /// Takes the next character, with its position.
    pub fn next(&mut self) -> (r: Option<CharWithPosition>)
        ensures
            old(self).remaining().len() == 0 ==> r is None && final(self).remaining() == old(self).remaining() && final(self).position() == old(self).position(),
            old(self).remaining().len() > 0 ==> r == Some(
                CharWithPosition {
                    character: old(self).remaining()[0],
                    position: old(self).position(),
                },
            ) && final(self).remaining() == old(self).remaining().skip(1) && final(self).position()
                == position_behind(old(self).position(), old(self).remaining()[0]),
    {
        proof {
            use_type_invariant(&*self);
        }
        if self.next < self.chars.len() {
            let character = self.chars[self.next];
            let position = self.position;
            self.position = advance(&position, character);
            self.next = self.next + 1;
            assert(old(self).remaining().skip(1) =~= self.remaining());
            Some(CharWithPosition { character, position })
        } else {
            None
        }
    }
}

} // verus!

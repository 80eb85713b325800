//! Positions inside a document of text lines.
//!
//! A position remembers its column: moving up or down keeps the column, also
//! where the line it comes to is shorter. What reads a position constrains it
//! to the document first.

use vstd::prelude::*;
use vstd::string::{StrSliceExecFns, StringExecFns};
use crate::common::{after, until, StringSliceExt};

verus! {

/// The lines of a document.
pub type Navigable = Vec<String>;

/// The texts of the lines of a document.
pub open spec fn line_texts(source: Seq<String>) -> Seq<Seq<char>> {
    source.map_values(|line: String| line@)
}

/// A line and a column, as mathematical integers: what a `Cursor` stands for.
pub struct Position {
    pub line: int,
    pub col: int,
}

impl Position {
    /// The order of positions: by line first, then by column.
    pub open spec fn before(self, other: Position) -> bool {
        self.line < other.line || (self.line == other.line && self.col < other.col)
    }

    /// The smaller of two positions.
    pub open spec fn least(self, other: Position) -> Position {
        if self.before(other) {
            self
        } else {
            other
        }
    }

    /// The larger of two positions.
    pub open spec fn greatest(self, other: Position) -> Position {
        if other.before(self) {
            self
        } else {
            other
        }
    }

    /// The position lies in the document: on one of its lines, and within
    /// that line or at its end.
    pub open spec fn within(self, lines: Seq<Seq<char>>) -> bool {
        0 <= self.line < lines.len() && 0 <= self.col <= lines[self.line].len()
    }

    /// The position moved into the document: the line is clamped to the
    /// lines that there are, and then the column to the length of that line.
    pub open spec fn constrained(self, lines: Seq<Seq<char>>) -> Position {
        let line = if self.line >= lines.len() {
            lines.len() - 1
        } else {
            self.line
        };
        let col = if self.col > lines[line].len() {
            lines[line].len() as int
        } else {
            self.col
        };
        Position { line, col }
    }

    /// The lines as they are shown for inspection: the line of the position
    /// with a bar at its column, or at the end where the column lies behind it.
    pub open spec fn marked(self, lines: Seq<Seq<char>>) -> Seq<Seq<char>> {
        Seq::new(
            lines.len(),
            |i: int|
                if i == self.line {
                    until(lines[i], self.col) + seq!['|'] + after(lines[i], self.col)
                } else {
                    lines[i]
                },
        )
    }

    /// One step to the left. A column behind the end of the line counts as
    /// the end. From the start of a line the step leads to the end of the
    /// line above; at the start of the document it leads nowhere.
    pub open spec fn left(self, lines: Seq<Seq<char>>) -> Position {
        let col = if self.col > lines[self.line].len() {
            lines[self.line].len() as int
        } else {
            self.col
        };
        if col > 0 {
            Position { line: self.line, col: col - 1 }
        } else if self.line > 0 {
            Position { line: self.line - 1, col: lines[self.line - 1].len() as int }
        } else {
            Position { line: 0, col: 0 }
        }
    }

    /// One step to the right. From the end of a line, or from behind it, the
    /// step leads to the start of the line below; on the last line it leads
    /// nowhere.
    pub open spec fn right(self, lines: Seq<Seq<char>>) -> Position {
        if self.col < lines[self.line].len() {
            Position { line: self.line, col: self.col + 1 }
        } else if self.line + 1 < lines.len() {
            Position { line: self.line + 1, col: 0 }
        } else {
            self
        }
    }

    /// One line up, keeping the column. On the first line the step leads to its start.
    pub open spec fn up(self) -> Position {
        if self.line == 0 {
            Position { line: 0, col: 0 }
        } else {
            Position { line: self.line - 1, col: self.col }
        }
    }

    /// One line down, keeping the column. On the last line the step leads to its end.
    pub open spec fn down(self, lines: Seq<Seq<char>>) -> Position {
        if self.line + 1 == lines.len() {
            Position { line: self.line, col: lines[self.line].len() as int }
        } else {
            Position { line: self.line + 1, col: self.col }
        }
    }
}

/// A position within a text document: a line and a column, both counted from
/// zero, the column in characters.
#[derive(Debug, Clone, Copy, PartialEq, Eq, Structural, PartialOrd, Ord)]
pub struct Cursor {
    pub line: usize,
    pub col: usize,
}

impl View for Cursor {
    type V = Position;

    open spec fn view(&self) -> Position {
        Position { line: self.line as int, col: self.col as int }
    }
}

/// The number of characters of a line.
pub fn char_count(line: &String) -> (len: usize)
    ensures
        len == line@.len(),
{
    line.as_str().unicode_len()
}

impl Cursor {
    /// Creates a cursor at the given line and column.
    pub fn new(line: usize, col: usize) -> (c: Cursor)
        ensures
            c.line == line,
            c.col == col,
    {
        Cursor { line, col }
    }

    /// Moves the cursor one step to the left and returns it.
    pub fn left(&mut self, source: &Navigable) -> (moved: &mut Cursor)
        requires
            old(self).line < source@.len(),
        ensures
            moved@ == old(self)@.left(line_texts(source@)),
            *final(self) == *final(moved),
    {
        let len = char_count(&source[self.line]);
        if self.col > len {
            self.col = len;
        }
        if self.col > 0 {
            self.col -= 1;
        } else if self.line > 0 {
            self.line -= 1;
            self.col = char_count(&source[self.line]);
        }
        self
    }

    /// Moves the cursor one step to the right and returns it.
    pub fn right(&mut self, source: &Navigable) -> (moved: &mut Cursor)
        requires
            old(self).line < source@.len(),
        ensures
            moved@ == old(self)@.right(line_texts(source@)),
            *final(self) == *final(moved),
    {
        let count = source.len();
        let len = char_count(&source[self.line]);
        if self.col < len {
            self.col += 1;
        } else if self.line + 1 < count {
            self.line += 1;
            self.col = 0;
        }
        self
    }

    /// Moves the cursor one line up and returns it.
    pub fn up(&mut self) -> (moved: &mut Cursor)
        ensures
            moved@ == old(self)@.up(),
            *final(self) == *final(moved),
    {
        if self.line == 0 {
            self.col = 0;
        } else {
            self.line -= 1;
        }
        self
    }

    /// Moves the cursor one line down and returns it.
    pub fn down(&mut self, source: &Navigable) -> (moved: &mut Cursor)
        requires
            old(self).line < source@.len(),
        ensures
            moved@ == old(self)@.down(line_texts(source@)),
            *final(self) == *final(moved),
    {
        let count = source.len();
        if self.line + 1 == count {
            self.col = char_count(&source[self.line]);
        } else {
            self.line += 1;
        }
        self
    }

    /// Returns a copy of the smaller of the two cursors.
    pub fn clone_min(&self, other: &Cursor) -> (c: Cursor)
        ensures
            c@ == self@.least(other@),
    {
        if self.line < other.line || (self.line == other.line && self.col < other.col) {
            *self
        } else {
            *other
        }
    }

    /// Returns a copy of the larger of the two cursors.
    pub fn clone_max(&self, other: &Cursor) -> (c: Cursor)
        ensures
            c@ == self@.greatest(other@),
    {
        if other.line < self.line || (other.line == self.line && other.col < self.col) {
            *self
        } else {
            *other
        }
    }

    /// Returns copies of the two cursors in their order: the smaller one first.
    pub fn order(&self, other: &Cursor) -> (span: (Cursor, Cursor))
        ensures
            span.0@ == self@.least(other@),
            span.1@ == self@.greatest(other@),
            !span.1@.before(span.0@),
    {
        (self.clone_min(other), self.clone_max(other))
    }

    /// Returns the lines of `source` for inspection, with a bar at the
    /// position of the cursor.
    pub fn debug(&self, source: &Navigable) -> (shown: Vec<String>)
        ensures
            line_texts(shown@) == self@.marked(line_texts(source@)),
    {
        let mut shown: Vec<String> = Vec::new();
        let mut i: usize = 0;
        proof {
            reveal_strlit("|");
            assert("|"@ =~= seq!['|']);
        }
        while i < source.len()
            invariant
                i <= source@.len(),
                shown@.len() == i,
                "|"@ == seq!['|'],
                forall|k: int|
                    0 <= k < i ==> (#[trigger] shown@[k])@ == self@.marked(line_texts(source@))[k],
            decreases source@.len() - i,
        {
            assert(line_texts(source@)[i as int] == source@[i as int]@);
            if i == self.line {
                let mut line = source[i].slice_until(self.col).to_owned();
                line.append("|");
                line.append(source[i].slice_after(self.col));
                shown.push(line);
            } else {
                shown.push(source[i].clone());
            }
            i += 1;
        }
        assert(line_texts(shown@) =~= self@.marked(line_texts(source@)));
        shown
    }

    /// Returns the position at which the cursor is shown in the document.
    pub fn constrained(&self, source: &Navigable) -> (c: Cursor)
        requires
            source@.len() >= 1,
        ensures
            c@ == self@.constrained(line_texts(source@)),
            c@.within(line_texts(source@)),
    {
        let mut cursor = *self;
        cursor.constrain(source);
        cursor
    }

    /// Moves the cursor into the document.
    pub fn constrain(&mut self, source: &Navigable)
        requires
            source@.len() >= 1,
        ensures
            final(self)@ == old(self)@.constrained(line_texts(source@)),
            final(self)@.within(line_texts(source@)),
    {
        self.constrain_line(source);
        self.constrain_col(source);
    }

    /// Clamps the column of the cursor to the length of its line.
    fn constrain_col(&mut self, source: &Navigable)
        requires
            old(self).line < source@.len(),
        ensures
            final(self).line == old(self).line,
            final(self).col == if old(self).col > source@[old(self).line as int]@.len() {
                source@[old(self).line as int]@.len()
            } else {
                old(self).col as nat
            },
    {
        let len = char_count(&source[self.line]);
        if self.col > len {
            self.col = len;
        }
    }

    /// Clamps the line of the cursor to the lines of the document.
    fn constrain_line(&mut self, source: &Navigable)
        requires
            source@.len() >= 1,
        ensures
            final(self).col == old(self).col,
            final(self).line == if old(self).line >= source@.len() {
                (source@.len() - 1) as usize
            } else {
                old(self).line
            },
    {
        let len = source.len();
        if self.line >= len {
            self.line = len - 1;
        }
    }
}

} // verus!

//! The mathematical model of a document: its lines, its cursor and its
//! selection marker, and what each operation of the text field makes of them.

use vstd::prelude::*;
use crate::cursor::Position;

verus! {

/// The lines of a text: a newline ends a line and begins the next one, so a
/// text with `n` newlines has `n + 1` lines, of which any may be empty.
///
/// Read character by character: a newline adds an empty line, any other
/// character is added to the last line.
pub open spec fn split_lines(text: Seq<char>) -> Seq<Seq<char>>
    decreases text.len(),
{
    if text.len() == 0 {
        seq![Seq::empty()]
    } else {
        let before = split_lines(text.drop_last());
        if text.last() == '\n' {
            before.push(Seq::empty())
        } else {
            before.update(before.len() - 1, before.last().push(text.last()))
        }
    }
}

/// The lines laid end to end, with a newline between each two.
pub open spec fn join_lines(lines: Seq<Seq<char>>) -> Seq<char>
    decreases lines.len(),
{
    if lines.len() == 0 {
        Seq::empty()
    } else if lines.len() == 1 {
        lines[0]
    } else {
        join_lines(lines.drop_last()) + seq!['\n'] + lines.last()
    }
}

/// The line holds no newline.
pub open spec fn no_newline(line: Seq<char>) -> bool {
    forall|i: int| 0 <= i < line.len() ==> line[i] != '\n'
}

/// No line holds a newline.
pub open spec fn plain(lines: Seq<Seq<char>>) -> bool {
    forall|i: int| 0 <= i < lines.len() ==> no_newline(#[trigger] lines[i])
}

/// The lines with everything from `first` up to `last` taken out: what stands
/// before `first` on its line is joined with what stands from `last` on on
/// its line, and the lines between are gone.
pub open spec fn without(lines: Seq<Seq<char>>, first: Position, last: Position) -> Seq<Seq<char>> {
    lines.take(first.line).push(lines[first.line].take(first.col) + lines[last.line].skip(last.col))
        + lines.skip(last.line + 1)
}

/// The lines that stand in place of the line of `at` when `text` is put in
/// there: the lines of the text, the first of them behind what stood before
/// `at`, and what stood behind `at` behind the last.
pub open spec fn put_in(lines: Seq<Seq<char>>, at: Position, text: Seq<char>) -> Seq<Seq<char>> {
    let parts = split_lines(text);
    let headed = parts.update(0, lines[at.line].take(at.col) + parts[0]);
    headed.update(headed.len() - 1, headed.last() + lines[at.line].skip(at.col))
}

/// The lines, the cursor and the selection marker of a text field.
pub struct Document {
    pub lines: Seq<Seq<char>>,
    pub cursor: Position,
    pub marker: Position,
}

impl Document {
    /// A document has at least one line, its lines hold no newline, and its
    /// cursor and its marker stand on lines of it. Their columns may lie
    /// behind the end of the line.
    pub open spec fn wf(self) -> bool {
        &&& self.lines.len() >= 1
        &&& plain(self.lines)
        &&& 0 <= self.cursor.line < self.lines.len()
        &&& 0 <= self.cursor.col
        &&& 0 <= self.marker.line < self.lines.len()
        &&& 0 <= self.marker.col
    }

    /// Where the cursor is shown.
    pub open spec fn shown_cursor(self) -> Position {
        self.cursor.constrained(self.lines)
    }

    /// Where the selection marker is shown.
    pub open spec fn shown_marker(self) -> Position {
        self.marker.constrained(self.lines)
    }

    /// Text is selected where the cursor and the marker are shown in different places.
    pub open spec fn has_selection(self) -> bool {
        self.shown_cursor() != self.shown_marker()
    }

    /// Where the selection begins.
    pub open spec fn first(self) -> Position {
        self.shown_cursor().least(self.shown_marker())
    }

    /// Where the selection ends.
    pub open spec fn last(self) -> Position {
        self.shown_cursor().greatest(self.shown_marker())
    }

    /// The document with the cursor at `to` and nothing selected.
    pub open spec fn at(self, to: Position) -> Document {
        Document { lines: self.lines, cursor: to, marker: to }
    }

    /// The document with the marker at `to`.
    pub open spec fn marked(self, to: Position) -> Document {
        Document { lines: self.lines, cursor: self.cursor, marker: to }
    }

    /// Nothing is selected any more: the marker joins the cursor.
    pub open spec fn clear_selection(self) -> Document {
        self.at(self.cursor)
    }

    /// A step to the left: the cursor moves, or a selection collapses to its smaller end.
    pub open spec fn left(self) -> Document {
        if self.has_selection() {
            self.at(self.cursor.least(self.marker))
        } else {
            self.at(self.cursor.left(self.lines))
        }
    }

    /// A step to the right: the cursor moves, or a selection collapses to its larger end.
    pub open spec fn right(self) -> Document {
        if self.has_selection() {
            self.at(self.cursor.greatest(self.marker))
        } else {
            self.at(self.cursor.right(self.lines))
        }
    }

    /// A step up: the cursor moves, or a selection collapses and the cursor
    /// moves up from its smaller end, as shown. Where that end is on the
    /// first line the cursor goes to the start. Otherwise it goes one line up
    /// and keeps the column that the cursor had.
    pub open spec fn up(self) -> Document {
        if self.has_selection() {
            let from = self.cursor.least(self.marker).constrained(self.lines);
            if from.line == 0 {
                self.at(from.up())
            } else {
                self.at(Position { line: from.line - 1, col: self.cursor.col })
            }
        } else {
            self.at(self.cursor.up())
        }
    }

    /// A step down: the cursor moves, or a selection collapses and the cursor
    /// moves down from its larger end, as shown. Where that end is on the
    /// last line the cursor goes to the end. Otherwise it goes one line down
    /// and keeps the column that the cursor had.
    pub open spec fn down(self) -> Document {
        if self.has_selection() {
            let from = self.cursor.greatest(self.marker).constrained(self.lines);
            if from.line + 1 == self.lines.len() {
                self.at(from.down(self.lines))
            } else {
                self.at(Position { line: from.line + 1, col: self.cursor.col })
            }
        } else {
            self.at(self.cursor.down(self.lines))
        }
    }

    /// Where the marker sets out from when the selection is changed: from
    /// where it is, or, where nothing is selected, from where the cursor is shown.
    pub open spec fn anchor(self) -> Position {
        if self.has_selection() {
            self.marker
        } else {
            self.shown_cursor()
        }
    }

    /// The marker moves a step to the left; the cursor stays.
    pub open spec fn select_left(self) -> Document {
        self.marked(self.anchor().left(self.lines))
    }

    /// The marker moves a step to the right; the cursor stays.
    pub open spec fn select_right(self) -> Document {
        self.marked(self.anchor().right(self.lines))
    }

    /// The marker moves a line up; the cursor stays.
    pub open spec fn select_up(self) -> Document {
        self.marked(self.anchor().up())
    }

    /// The marker moves a line down; the cursor stays.
    pub open spec fn select_down(self) -> Document {
        self.marked(self.anchor().down(self.lines))
    }

    /// The lines that the selection touches, cut to what is selected of them:
    /// the first without what stands before the selection, the last without
    /// what stands behind it.
    pub open spec fn selected_lines(self) -> Seq<Seq<char>> {
        let first = self.first();
        let last = self.last();
        let touched = self.lines.subrange(first.line, last.line + 1);
        let cut = touched.update(touched.len() - 1, touched.last().take(last.col));
        cut.update(0, cut[0].skip(first.col))
    }

    /// The selected text: nothing where nothing is selected, else the
    /// selected parts of the lines with a newline between each two.
    pub open spec fn selected_text(self) -> Seq<char> {
        if self.has_selection() {
            join_lines(self.selected_lines())
        } else {
            Seq::empty()
        }
    }

    /// The selection is deleted, and the cursor stands where it began. Where
    /// nothing is selected nothing changes.
    pub open spec fn delete_selection(self) -> Document {
        if self.has_selection() {
            Document {
                lines: without(self.lines, self.first(), self.last()),
                cursor: self.first(),
                marker: self.first(),
            }
        } else {
            self
        }
    }

    /// The selection is deleted, or else the character before the cursor.
    /// At the start of a line that is the line break before it: the line is
    /// joined to the line above. At the start of the document nothing changes.
    pub open spec fn delete_previous(self) -> Document {
        let at = self.shown_cursor();
        if self.has_selection() {
            self.delete_selection()
        } else if at.col > 0 {
            let to = Position { line: at.line, col: at.col - 1 };
            Document { lines: without(self.lines, to, at), cursor: to, marker: to }
        } else if at.line > 0 {
            let to = Position { line: at.line - 1, col: self.lines[at.line - 1].len() as int };
            Document { lines: without(self.lines, to, at), cursor: to, marker: to }
        } else {
            self
        }
    }

    /// The selection is deleted, or else the character behind the cursor. At
    /// the end of a line that is the line break behind it: the line below is
    /// joined to the line. At the end of the document nothing changes.
    pub open spec fn delete_next(self) -> Document {
        let at = self.shown_cursor();
        if self.has_selection() {
            self.delete_selection()
        } else if at.col < self.lines[at.line].len() {
            Document {
                lines: without(self.lines, at, Position { line: at.line, col: at.col + 1 }),
                cursor: at,
                marker: at,
            }
        } else if at.line + 1 < self.lines.len() {
            Document {
                lines: without(self.lines, at, Position { line: at.line + 1, col: 0 }),
                cursor: at,
                marker: at,
            }
        } else {
            self
        }
    }

    /// The text is put in at the cursor of a document in which nothing is
    /// selected. The cursor stands behind what was put in.
    pub open spec fn insert_at_cursor(self, text: Seq<char>) -> Document {
        let at = self.shown_cursor();
        let parts = split_lines(text);
        let to = Position {
            line: at.line + parts.len() - 1,
            col: if parts.len() == 1 {
                at.col + parts[0].len()
            } else {
                parts.last().len() as int
            },
        };
        Document {
            lines: self.lines.take(at.line) + put_in(self.lines, at, text) + self.lines.skip(at.line + 1),
            cursor: to,
            marker: to,
        }
    }

    /// The text takes the place of the selection, or is put in at the cursor
    /// where nothing is selected.
    pub open spec fn insert(self, text: Seq<char>) -> Document {
        self.delete_selection().insert_at_cursor(text)
    }
}

} // verus!

//! A field of text: the lines of a document, a cursor and a selection marker,
//! with the operations that move the cursor, change the selection and edit
//! the text.

use vstd::prelude::*;
use vstd::string::{StrSliceExecFns, StringExecFns};
use crate::common::StringSliceExt;
use crate::cursor::{char_count, line_texts, Cursor, Position};
use crate::document::{
    join_lines, no_newline, plain, put_in, split_lines, without, Document,
};
use crate::document_laws::lemma_split_lines_plain;

verus! {

/// A field of text.
#[derive(Debug, Clone)]
pub struct Textfield {
    pub lines: Vec<String>,
    pub cursor: Cursor,
    pub selection_marker: Cursor,
}

impl View for Textfield {
    type V = Document;

    open spec fn view(&self) -> Document {
        Document {
            lines: line_texts(self.lines@),
            cursor: self.cursor@,
            marker: self.selection_marker@,
        }
    }
}

/// Splits a text into its lines at the newlines.
pub fn split_text(text: &str) -> (lines: Vec<String>)
    ensures
        line_texts(lines@) == split_lines(text@),
        lines@.len() >= 1,
{
    let n = text.unicode_len();
    let mut lines: Vec<String> = Vec::new();
    let mut start: usize = 0;
    let mut i: usize = 0;
    proof {
        assert(text@.take(0) =~= Seq::<char>::empty());
        assert(line_texts(lines@).push(text@.subrange(0, 0)) =~= split_lines(text@.take(0)));
    }
    for c in it: text.chars()
        invariant
            it.seq() == text@,
            n == text@.len(),
            i == it.index(),
            start <= i <= n,
            line_texts(lines@).push(text@.subrange(start as int, i as int)) == split_lines(
                text@.take(i as int),
            ),
    {
        let ghost before = lines@;
        let ghost start0 = start;
        if c == '\n' {
            lines.push(text.substring_char(start, i).to_owned());
            start = i + 1;
        }
        proof {
            let grown = text@.take(i + 1);
            assert(grown.drop_last() =~= text@.take(i as int));
            assert(grown.last() == c);
            if c == '\n' {
                assert(line_texts(lines@) =~= line_texts(before).push(
                    text@.subrange(start0 as int, i as int),
                ));
                assert(text@.subrange(start as int, i + 1) =~= Seq::<char>::empty());
            } else {
                assert(text@.subrange(start as int, i + 1) =~= text@.subrange(
                    start as int,
                    i as int,
                ).push(c));
                assert(line_texts(lines@).push(text@.subrange(start as int, i + 1)) =~= split_lines(
                    grown,
                ));
            }
        }
        i += 1;
    }
    let ghost before = lines@;
    lines.push(text.substring_char(start, n).to_owned());
    proof {
        assert(text@.take(n as int) =~= text@);
        assert(line_texts(lines@) =~= line_texts(before).push(text@.subrange(start as int, n as int)));
    }
    lines
}

/// Returns whether the line holds a newline.
fn has_newline(line: &str) -> (found: bool)
    ensures
        found == !no_newline(line@),
{
    for c in it: line.chars()
        invariant
            it.seq() == line@,
            forall|k: int| 0 <= k < it.index() ==> line@[k] != '\n',
    {
        if c == '\n' {
            return true;
        }
    }
    false
}

/// Takes out of the lines everything from `first` up to `last`.
fn take_out(lines: &mut Vec<String>, first: Cursor, last: Cursor)
    requires
        first@.within(line_texts(old(lines)@)),
        last@.within(line_texts(old(lines)@)),
        first.line <= last.line,
        plain(line_texts(old(lines)@)),
    ensures
        line_texts(final(lines)@) == without(line_texts(old(lines)@), first@, last@),
        plain(line_texts(final(lines)@)),
        final(lines)@.len() == old(lines)@.len() - (last.line - first.line),
{
    let ghost before = lines@;
    let mut joined = lines[first.line].slice_until(first.col).to_owned();
    joined.append(lines[last.line].slice_after(last.col));
    proof {
        assert(line_texts(before)[first.line as int] == before[first.line as int]@);
        assert(line_texts(before)[last.line as int] == before[last.line as int]@);
        assert(joined@ =~= before[first.line as int]@.take(first.col as int)
            + before[last.line as int]@.skip(last.col as int));
        assert(no_newline(line_texts(before)[first.line as int]));
        assert(no_newline(line_texts(before)[last.line as int]));
        assert(no_newline(joined@));
    }
    lines.set(first.line, joined);
    let count = last.line - first.line;
    let mut gone: usize = 0;
    proof {
        assert(lines@ =~= before.take(first.line as int).push(joined) + before.skip(first.line + 1));
    }
    while gone < count
        invariant
            gone <= count,
            count == last.line - first.line,
            last.line < before.len(),
            lines@ == before.take(first.line as int).push(joined) + before.skip(
                first.line + 1 + gone,
            ),
        decreases count - gone,
    {
        lines.remove(first.line + 1);
        gone += 1;
        proof {
            assert(lines@ =~= before.take(first.line as int).push(joined) + before.skip(
                first.line + 1 + gone,
            ));
        }
    }
    proof {
        assert(line_texts(lines@) =~= without(line_texts(before), first@, last@));
        assert forall|i: int| 0 <= i < line_texts(lines@).len() implies no_newline(
            #[trigger] line_texts(lines@)[i],
        ) by {
            if i < first.line {
                assert(line_texts(lines@)[i] == line_texts(before)[i]);
            } else if i > first.line {
                assert(line_texts(lines@)[i] == line_texts(before)[i + count]);
            }
        }
    }
}

/// Puts the text into the lines at `at`, and returns the position behind it.
fn put_lines(lines: &mut Vec<String>, at: Cursor, text: &str) -> (to: Cursor)
    requires
        at@.within(line_texts(old(lines)@)),
        plain(line_texts(old(lines)@)),
    ensures
        line_texts(final(lines)@) == line_texts(old(lines)@).take(at.line as int) + put_in(
            line_texts(old(lines)@),
            at@,
            text@,
        ) + line_texts(old(lines)@).skip(at.line + 1),
        plain(line_texts(final(lines)@)),
        final(lines)@.len() == old(lines)@.len() + split_lines(text@).len() - 1,
        to.line == at.line + split_lines(text@).len() - 1,
        to.col == if split_lines(text@).len() == 1 {
            at.col + split_lines(text@)[0].len()
        } else {
            split_lines(text@).last().len() as int
        },
{
    let ghost before = line_texts(lines@);
    let ghost new_lines = split_lines(text@);
    let parts = split_text(text);
    let count = parts.len();
    proof {
        lemma_split_lines_plain(text@);
        assert(before[at.line as int] == lines@[at.line as int]@);
        assert(no_newline(before[at.line as int]));
        assert(new_lines[0] == parts@[0]@);
        assert(new_lines[count - 1] == parts@[count - 1]@);
        assert(no_newline(new_lines[0]));
        assert(no_newline(new_lines[count - 1]));
    }
    let tail = lines[at.line].slice_after(at.col).to_owned();
    let mut head = lines[at.line].slice_until(at.col).to_owned();
    head.append(parts[0].as_str());
    let ghost stem = before[at.line as int].take(at.col as int);
    let ghost rest = before[at.line as int].skip(at.col as int);
    proof {
        assert(tail@ =~= rest);
        assert(head@ =~= stem + new_lines[0]);
    }
    if count == 1 {
        let col = char_count(&head);
        head.append(tail.as_str());
        let ghost whole = head@;
        lines.set(at.line, head);
        proof {
            assert(put_in(before, at@, text@) =~= seq![whole]);
            assert(line_texts(lines@) =~= before.take(at.line as int) + seq![whole] + before.skip(
                at.line + 1,
            ));
            assert(no_newline(whole));
            assert forall|i: int| 0 <= i < line_texts(lines@).len() implies no_newline(
                #[trigger] line_texts(lines@)[i],
            ) by {
                if i != at.line {
                    assert(line_texts(lines@)[i] == before[i]);
                }
            }
        }
        Cursor::new(at.line, col)
    } else {
        let ghost first = head@;
        lines.set(at.line, head);
        let mut done: usize = 1;
        proof {
            assert(line_texts(lines@) =~= before.take(at.line as int).push(first)
                + new_lines.subrange(1, 1) + before.skip(at.line + 1));
        }
        while done < count - 1
            invariant
                1 <= done <= count - 1,
                count == parts@.len(),
                at.line < before.len(),
                line_texts(parts@) == new_lines,
                line_texts(lines@) == before.take(at.line as int).push(first) + new_lines.subrange(
                    1,
                    done as int,
                ) + before.skip(at.line + 1),
            decreases count - done,
        {
            let ghost earlier = lines@;
            let room = lines.len();
            assert(line_texts(lines@).len() == lines@.len());
            assert(room == before.len() + done - 1);
            lines.insert(at.line + done, parts[done].clone());
            proof {
                assert(new_lines[done as int] == parts@[done as int]@);
                assert(line_texts(lines@) =~= line_texts(earlier).insert(
                    at.line + done,
                    new_lines[done as int],
                ));
                assert(line_texts(lines@) =~= before.take(at.line as int).push(first)
                    + new_lines.subrange(1, done + 1) + before.skip(at.line + 1));
            }
            done += 1;
        }
        let mut end = parts[count - 1].clone();
        let col = char_count(&end);
        end.append(tail.as_str());
        let ghost last = end@;
        let ghost earlier = lines@;
        let room = lines.len();
        assert(line_texts(lines@).len() == lines@.len());
        assert(room == before.len() + count - 2);
        lines.insert(at.line + (count - 1), end);
        proof {
            assert(last =~= new_lines[count - 1] + rest);
            assert(line_texts(lines@) =~= line_texts(earlier).insert(at.line + count - 1, last));
            assert(put_in(before, at@, text@) =~= seq![first] + new_lines.subrange(1, count - 1)
                + seq![last]);
            assert(line_texts(lines@) =~= before.take(at.line as int) + put_in(before, at@, text@)
                + before.skip(at.line + 1));
            assert(no_newline(first));
            assert(no_newline(last));
            assert forall|i: int| 0 <= i < line_texts(lines@).len() implies no_newline(
                #[trigger] line_texts(lines@)[i],
            ) by {
                if i < at.line {
                    assert(line_texts(lines@)[i] == before[i]);
                } else if i == at.line {
                } else if i < at.line + count - 1 {
                    assert(line_texts(lines@)[i] == new_lines[i - at.line]);
                } else if i == at.line + count - 1 {
                } else {
                    assert(line_texts(lines@)[i] == before[i - count + 1]);
                }
            }
        }
        Cursor::new(at.line + (count - 1), col)
    }
}

impl Textfield {
    /// The field holds a document: at least one line, no newline within a
    /// line, and the cursor and the marker on lines of it.
    pub open spec fn wf(&self) -> bool {
        self@.wf()
    }

    /// Returns whether the field holds a document, as every operation expects.
    pub fn is_document(&self) -> (ok: bool)
        ensures
            ok == self.wf(),
    {
        let count = self.lines.len();
        if count == 0 || self.cursor.line >= count || self.selection_marker.line >= count {
            return false;
        }
        let mut i: usize = 0;
        while i < count
            invariant
                i <= count == self.lines@.len(),
                forall|k: int| 0 <= k < i ==> no_newline(#[trigger] line_texts(self.lines@)[k]),
            decreases count - i,
        {
            assert(line_texts(self.lines@)[i as int] == self.lines@[i as int]@);
            if has_newline(self.lines[i].as_str()) {
                return false;
            }
            i += 1;
        }
        true
    }

    /// Creates a text field that holds the lines of `text`, with the cursor
    /// at its start and nothing selected. A newline at the end of the text
    /// gives an empty last line.
    pub fn new(text: &str) -> (field: Textfield)
        ensures
            field.wf(),
            field@.lines == split_lines(text@),
            field@.cursor == (Position { line: 0, col: 0 }),
            field@.marker == (Position { line: 0, col: 0 }),
    {
        proof {
            lemma_split_lines_plain(text@);
        }
        Textfield {
            lines: split_text(text),
            cursor: Cursor::new(0, 0),
            selection_marker: Cursor::new(0, 0),
        }
    }

    /// Returns whether text is selected.
    pub fn has_selection(&self) -> (selected: bool)
        requires
            self.wf(),
        ensures
            selected == self@.has_selection(),
    {
        let marker = self.selection_marker.constrained(&self.lines);
        let cursor = self.cursor.constrained(&self.lines);
        marker.line != cursor.line || marker.col != cursor.col
    }

    /// Deselects: the marker joins the cursor.
    pub fn clear_selection(&mut self)
        ensures
            final(self)@ == old(self)@.clear_selection(),
            old(self).wf() ==> final(self).wf(),
    {
        self.selection_marker = self.cursor;
    }

    /// Returns the cursor constrained to the text.
    pub fn cons_cursor(&self) -> (shown: Cursor)
        requires
            self.wf(),
        ensures
            shown@ == self@.shown_cursor(),
            shown@.within(self@.lines),
    {
        self.cursor.constrained(&self.lines)
    }

    /// Returns the selection marker constrained to the text.
    pub fn cons_marker(&self) -> (shown: Cursor)
        requires
            self.wf(),
        ensures
            shown@ == self@.shown_marker(),
            shown@.within(self@.lines),
    {
        self.selection_marker.constrained(&self.lines)
    }

    /// Moves the cursor left, or collapses the selection to where it begins.
    pub fn left(&mut self)
        requires
            old(self).wf(),
        ensures
            final(self).wf(),
            final(self)@ == old(self)@.left(),
    {
        if self.has_selection() {
            self.cursor = self.cursor.clone_min(&self.selection_marker);
        } else {
            self.cursor.left(&self.lines);
        }
        self.clear_selection();
    }

    /// Moves the cursor right, or collapses the selection to where it ends.
    pub fn right(&mut self)
        requires
            old(self).wf(),
        ensures
            final(self).wf(),
            final(self)@ == old(self)@.right(),
    {
        if self.has_selection() {
            self.cursor = self.cursor.clone_max(&self.selection_marker);
        } else {
            self.cursor.right(&self.lines);
        }
        self.clear_selection();
    }

    /// Moves the cursor up. A selection collapses: the cursor goes up from
    /// where the selection begins, and keeps its column.
    pub fn up(&mut self)
        requires
            old(self).wf(),
        ensures
            final(self).wf(),
            final(self)@ == old(self)@.up(),
    {
        if self.has_selection() {
            let from = self.cursor.clone_min(&self.selection_marker).constrained(&self.lines);
            if from.line == 0 {
                self.cursor = Cursor::new(0, 0);
            } else {
                self.cursor = Cursor::new(from.line - 1, self.cursor.col);
            }
        } else {
            self.cursor.up();
        }
        self.clear_selection();
    }

    /// Moves the cursor down. A selection collapses: the cursor goes down
    /// from where the selection ends, and keeps its column.
    pub fn down(&mut self)
        requires
            old(self).wf(),
        ensures
            final(self).wf(),
            final(self)@ == old(self)@.down(),
    {
        if self.has_selection() {
            let mut from = self.cursor.clone_max(&self.selection_marker).constrained(&self.lines);
            let count = self.lines.len();
            if from.line + 1 == count {
                from.down(&self.lines);
                self.cursor = from;
            } else {
                self.cursor = Cursor::new(from.line + 1, self.cursor.col);
            }
        } else {
            self.cursor.down(&self.lines);
        }
        self.clear_selection();
    }

    /// Where the marker sets out from when the selection is changed.
    fn anchor(&self) -> (from: Cursor)
        requires
            self.wf(),
        ensures
            from@ == self@.anchor(),
            from.line < self.lines@.len(),
    {
        if self.has_selection() {
            self.selection_marker
        } else {
            self.cursor.constrained(&self.lines)
        }
    }

    /// Moves the marker left, and so changes the selection by a character.
    pub fn select_left(&mut self)
        requires
            old(self).wf(),
        ensures
            final(self).wf(),
            final(self)@ == old(self)@.select_left(),
    {
        let mut marker = self.anchor();
        marker.left(&self.lines);
        self.selection_marker = marker;
    }

    /// Moves the marker right, and so changes the selection by a character.
    pub fn select_right(&mut self)
        requires
            old(self).wf(),
        ensures
            final(self).wf(),
            final(self)@ == old(self)@.select_right(),
    {
        let mut marker = self.anchor();
        marker.right(&self.lines);
        self.selection_marker = marker;
    }

    /// Moves the marker up, and so changes the selection by a line.
    pub fn select_up(&mut self)
        requires
            old(self).wf(),
        ensures
            final(self).wf(),
            final(self)@ == old(self)@.select_up(),
    {
        let mut marker = self.anchor();
        marker.up();
        self.selection_marker = marker;
    }

    /// Moves the marker down, and so changes the selection by a line.
    pub fn select_down(&mut self)
        requires
            old(self).wf(),
        ensures
            final(self).wf(),
            final(self)@ == old(self)@.select_down(),
    {
        let mut marker = self.anchor();
        marker.down(&self.lines);
        self.selection_marker = marker;
    }

    /// Deletes the selection. The cursor stands where the selection began.
    pub fn delete_selection(&mut self)
        requires
            old(self).wf(),
        ensures
            final(self).wf(),
            final(self)@ == old(self)@.delete_selection(),
    {
        if !self.has_selection() {
            return ;
        }
        let cursor = self.cons_cursor();
        let marker = self.cons_marker();
        let first = cursor.clone_min(&marker);
        let last = cursor.clone_max(&marker);
        take_out(&mut self.lines, first, last);
        self.cursor = first;
        self.selection_marker = first;
    }

    /// Deletes the selection, or else the character before the cursor. At
    /// the start of a line the line is joined to the line above.
    pub fn delete_previous(&mut self)
        requires
            old(self).wf(),
        ensures
            final(self).wf(),
            final(self)@ == old(self)@.delete_previous(),
    {
        if self.has_selection() {
            self.delete_selection();
            return ;
        }
        let at = self.cons_cursor();
        if at.col > 0 {
            let to = Cursor::new(at.line, at.col - 1);
            take_out(&mut self.lines, to, at);
            self.cursor = to;
            self.selection_marker = to;
        } else if at.line > 0 {
            let to = Cursor::new(at.line - 1, char_count(&self.lines[at.line - 1]));
            take_out(&mut self.lines, to, at);
            self.cursor = to;
            self.selection_marker = to;
        }
    }

    /// Deletes the selection, or else the character behind the cursor. At
    /// the end of a line the line below is joined to the line.
    pub fn delete_next(&mut self)
        requires
            old(self).wf(),
        ensures
            final(self).wf(),
            final(self)@ == old(self)@.delete_next(),
    {
        if self.has_selection() {
            self.delete_selection();
            return ;
        }
        let at = self.cons_cursor();
        let count = self.lines.len();
        if at.col < char_count(&self.lines[at.line]) {
            take_out(&mut self.lines, at, Cursor::new(at.line, at.col + 1));
            self.cursor = at;
            self.selection_marker = at;
        } else if at.line + 1 < count {
            take_out(&mut self.lines, at, Cursor::new(at.line + 1, 0));
            self.cursor = at;
            self.selection_marker = at;
        }
    }

    /// Puts `text` in place of the selection, or at the cursor where nothing
    /// is selected. Each newline of the text begins a new line. The cursor
    /// stands behind what was put in.
    pub fn insert(&mut self, text: &str)
        requires
            old(self).wf(),
        ensures
            final(self).wf(),
            final(self)@ == old(self)@.insert(text@),
    {
        self.delete_selection();
        let at = self.cons_cursor();
        let to = put_lines(&mut self.lines, at, text);
        self.cursor = to;
        self.selection_marker = to;
    }

    /// Returns the selected text, with a newline between each two lines of
    /// it. Where nothing is selected it is empty.
    pub fn selected_text(&mut self) -> (text: String)
        requires
            old(self).wf(),
        ensures
            *final(self) == *old(self),
            text@ == old(self)@.selected_text(),
    {
        let mut text = String::new();
        if !self.has_selection() {
            return text;
        }
        let cursor = self.cons_cursor();
        let marker = self.cons_marker();
        let first = cursor.clone_min(&marker);
        let last = cursor.clone_max(&marker);
        let ghost lines = self@.lines;
        let ghost picked = self@.selected_lines();
        proof {
            reveal_strlit("\n");
            assert("\n"@ =~= seq!['\n']);
            assert(lines[first.line as int] == self.lines@[first.line as int]@);
            assert(lines[last.line as int] == self.lines@[last.line as int]@);
        }
        if first.line == last.line {
            text.append(self.lines[first.line].as_str().substring_char(first.col, last.col));
            proof {
                assert(picked[0] =~= lines[first.line as int].subrange(
                    first.col as int,
                    last.col as int,
                ));
                assert(text@ =~= picked[0]);
            }
        } else {
            text.append(self.lines[first.line].slice_after(first.col));
            let mut line: usize = first.line + 1;
            proof {
                assert(picked.take(1) =~= seq![picked[0]]);
                assert(text@ =~= picked[0]);
            }
            while line < last.line
                invariant
                    first.line < line <= last.line < self.lines@.len(),
                    lines == line_texts(self.lines@),
                    picked.len() == last.line - first.line + 1,
                    forall|k: int|
                        0 < k < last.line - first.line ==> picked[k] == lines[first.line + k],
                    "\n"@ == seq!['\n'],
                    text@ == join_lines(picked.take(line - first.line)),
                decreases last.line - line,
            {
                text.append("\n");
                text.append(self.lines[line].as_str());
                proof {
                    let upto = picked.take(line - first.line + 1);
                    assert(upto.drop_last() =~= picked.take(line - first.line));
                    assert(upto.last() == lines[line as int]);
                    assert(lines[line as int] == self.lines@[line as int]@);
                }
                line += 1;
            }
            text.append("\n");
            text.append(self.lines[last.line].slice_until(last.col));
            proof {
                assert(picked.drop_last() =~= picked.take(last.line - first.line));
                assert(picked.last() =~= lines[last.line as int].take(last.col as int));
            }
        }
        text
    }
}

} // verus!

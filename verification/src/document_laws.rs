//! What holds of every document: its operations keep it a document, and
//! inserting is the inverse of deleting.

use vstd::prelude::*;
use crate::cursor::Position;
use crate::document::{join_lines, no_newline, plain, put_in, split_lines, without, Document};

verus! {

/// A text without a newline is a single line.
pub proof fn lemma_split_plain(line: Seq<char>)
    requires
        no_newline(line),
    ensures
        split_lines(line) == seq![line],
    decreases line.len(),
{
    if line.len() > 0 {
        lemma_split_plain(line.drop_last());
        assert(line[line.len() - 1] != '\n');
        assert(line.drop_last().push(line.last()) =~= line);
        assert(split_lines(line).len() == 1);
        assert(split_lines(line)[0] == line);
        assert(split_lines(line) =~= seq![line]);
    } else {
        assert(line =~= Seq::<char>::empty());
    }
}

/// Behind a newline a text without a newline is a line of its own.
pub proof fn lemma_split_behind_newline(text: Seq<char>, line: Seq<char>)
    requires
        no_newline(line),
    ensures
        split_lines(text + seq!['\n'] + line) == split_lines(text).push(line),
    decreases line.len(),
{
    let whole = text + seq!['\n'] + line;
    if line.len() == 0 {
        assert(whole.drop_last() =~= text);
        assert(line =~= Seq::<char>::empty());
    } else {
        lemma_split_behind_newline(text, line.drop_last());
        assert(whole.drop_last() =~= text + seq!['\n'] + line.drop_last());
        assert(line.drop_last().push(line.last()) =~= line);
        assert(split_lines(whole) =~= split_lines(text).push(line));
    }
}

/// Splitting undoes joining: lines without newlines, joined and split again,
/// are the same lines.
pub proof fn lemma_split_join(lines: Seq<Seq<char>>)
    requires
        lines.len() >= 1,
        plain(lines),
    ensures
        split_lines(join_lines(lines)) == lines,
    decreases lines.len(),
{
    if lines.len() == 1 {
        lemma_split_plain(lines[0]);
        assert(seq![lines[0]] =~= lines);
    } else {
        let front = lines.drop_last();
        assert forall|i: int| 0 <= i < front.len() implies no_newline(#[trigger] front[i]) by {
            assert(front[i] == lines[i]);
        }
        lemma_split_join(front);
        lemma_split_behind_newline(join_lines(front), lines.last());
        assert(front.push(lines.last()) =~= lines);
    }
}

/// Moving the cursor or the marker leaves a document a document.
pub proof fn lemma_moves_keep_documents(doc: Document)
    requires
        doc.wf(),
    ensures
        doc.clear_selection().wf(),
        doc.left().wf(),
        doc.right().wf(),
        doc.up().wf(),
        doc.down().wf(),
        doc.select_left().wf(),
        doc.select_right().wf(),
        doc.select_up().wf(),
        doc.select_down().wf(),
{
}

/// Deleting the selection leaves a document a document: with at least one line.
pub proof fn lemma_delete_selection_keeps_documents(doc: Document)
    requires
        doc.wf(),
    ensures
        doc.delete_selection().wf(),
{
    lemma_without_keeps(doc.lines, doc.first(), doc.last());
}

/// Deleting backwards leaves a document a document: with at least one line.
pub proof fn lemma_delete_previous_keeps_documents(doc: Document)
    requires
        doc.wf(),
    ensures
        doc.delete_previous().wf(),
{
    let at = doc.shown_cursor();
    if doc.has_selection() {
        lemma_delete_selection_keeps_documents(doc);
    } else if at.col > 0 {
        lemma_without_keeps(doc.lines, Position { line: at.line, col: at.col - 1 }, at);
    } else if at.line > 0 {
        lemma_without_keeps(
            doc.lines,
            Position { line: at.line - 1, col: doc.lines[at.line - 1].len() as int },
            at,
        );
    }
}

/// Deleting forwards leaves a document a document: with at least one line.
pub proof fn lemma_delete_next_keeps_documents(doc: Document)
    requires
        doc.wf(),
    ensures
        doc.delete_next().wf(),
{
    let at = doc.shown_cursor();
    if doc.has_selection() {
        lemma_delete_selection_keeps_documents(doc);
    } else if at.col < doc.lines[at.line].len() {
        lemma_without_keeps(doc.lines, at, Position { line: at.line, col: at.col + 1 });
    } else if at.line + 1 < doc.lines.len() {
        lemma_without_keeps(doc.lines, at, Position { line: at.line + 1, col: 0 });
    }
}

/// Inserting a text leaves a document a document: with at least one line.
pub proof fn lemma_insert_keeps_documents(doc: Document, text: Seq<char>)
    requires
        doc.wf(),
    ensures
        doc.insert(text).wf(),
{
    lemma_delete_selection_keeps_documents(doc);
    lemma_insert_keeps(doc.delete_selection(), text);
}

/// Taking a part out of the lines of a document leaves the lines of a document.
proof fn lemma_without_keeps(lines: Seq<Seq<char>>, first: Position, last: Position)
    requires
        first.within(lines),
        last.within(lines),
        first.line <= last.line,
        plain(lines),
    ensures
        without(lines, first, last).len() == lines.len() - (last.line - first.line),
        plain(without(lines, first, last)),
{
    let left = without(lines, first, last);
    assert(no_newline(lines[first.line]));
    assert(no_newline(lines[last.line]));
    assert forall|i: int| 0 <= i < left.len() implies no_newline(#[trigger] left[i]) by {
        if i < first.line {
            assert(left[i] == lines[i]);
        } else if i > first.line {
            assert(left[i] == lines[i + last.line - first.line]);
        }
    }
}

/// Putting a text in at the cursor of a document gives a document.
proof fn lemma_insert_keeps(doc: Document, text: Seq<char>)
    requires
        doc.wf(),
    ensures
        doc.insert_at_cursor(text).wf(),
{
    let at = doc.shown_cursor();
    let parts = split_lines(text);
    let put = put_in(doc.lines, at, text);
    let after = doc.insert_at_cursor(text);
    lemma_split_lines_plain(text);
    assert(no_newline(doc.lines[at.line]));
    assert(no_newline(parts[0]));
    assert(no_newline(parts.last()));
    assert forall|i: int| 0 <= i < after.lines.len() implies no_newline(#[trigger] after.lines[i]) by {
        if i < at.line {
            assert(after.lines[i] == doc.lines[i]);
        } else if i < at.line + parts.len() {
            if 0 < i - at.line < parts.len() - 1 {
                assert(after.lines[i] == parts[i - at.line]);
            }
        } else {
            assert(after.lines[i] == doc.lines[i - parts.len() + 1]);
        }
    }
}

/// Splitting gives at least one line, and no line that holds a newline.
pub proof fn lemma_split_lines_plain(text: Seq<char>)
    ensures
        split_lines(text).len() >= 1,
        plain(split_lines(text)),
    decreases text.len(),
{
    if text.len() > 0 {
        lemma_split_lines_plain(text.drop_last());
    }
}

/// Deleting and inserting are inverse to each other: when the selection is
/// deleted and the text that was selected is inserted again, the document
/// has the lines that it had.
pub proof fn lemma_insert_restores_deleted(doc: Document)
    requires
        doc.wf(),
        doc.has_selection(),
    ensures
        doc.delete_selection().insert(doc.selected_text()).lines == doc.lines,
{
    let first = doc.first();
    let last = doc.last();
    let lines = doc.lines;
    let picked = doc.selected_lines();
    let deleted = doc.delete_selection();
    let stem = lines[first.line].take(first.col);
    let rest = lines[last.line].skip(last.col);
    lemma_without_keeps(lines, first, last);
    assert(deleted.lines[first.line] == stem + rest);
    assert(deleted.shown_cursor() == first);
    assert(!deleted.has_selection());
    assert(no_newline(lines[first.line]));
    assert(no_newline(lines[last.line]));
    assert forall|i: int| 0 <= i < picked.len() implies no_newline(#[trigger] picked[i]) by {
        if 0 < i < picked.len() - 1 {
            assert(picked[i] == lines[first.line + i]);
        }
    }
    lemma_split_join(picked);
    let put = put_in(deleted.lines, first, doc.selected_text());
    assert((stem + rest).take(first.col) =~= stem);
    assert((stem + rest).skip(first.col) =~= rest);
    assert forall|i: int| 0 <= i < put.len() implies put[i] == lines[first.line + i] by {
        if picked.len() == 1 {
            assert(stem + picked[0] + rest =~= lines[first.line]);
        } else if i == 0 {
            assert(stem + picked[0] =~= lines[first.line]);
        } else if i == picked.len() - 1 {
            assert(picked[i] + rest =~= lines[last.line]);
        }
    }
    assert(deleted.insert(doc.selected_text()).lines =~= lines);
}

} // verus!

//! What the two renderings of a report share: the choice between them and
//! the way lines make up a text.

use vstd::prelude::*;

verus! {

/// Which rendering a finished scan is given.
#[derive(Clone, Copy, Debug, PartialEq, Eq, Structural)]
pub enum ReportKind {
    /// A table of block numbers and entropies, as text.
    Table,
    /// A strip image with one pixel column for each block.
    Image,
}

impl ReportKind {
    /// An empty image path asks for the table, any other path for the image.
    pub fn for_image_path(path: &str) -> (kind: ReportKind)
        ensures
            kind == (if path@.len() == 0 {
                ReportKind::Table
            } else {
                ReportKind::Image
            }),
    {
        if path.is_empty() {
            ReportKind::Table
        } else {
            ReportKind::Image
        }
    }
}

/// The text that holds `lines` in their order, each followed by a newline.
pub open spec fn join_lines(lines: Seq<Seq<char>>) -> Seq<char>
    decreases lines.len(),
{
    if lines.len() == 0 {
        Seq::empty()
    } else {
        join_lines(lines.drop_last()) + lines.last() + seq!['\n']
    }
}

/// How many newline characters `text` holds.
pub open spec fn newlines(text: Seq<char>) -> nat
    decreases text.len(),
{
    if text.len() == 0 {
        0
    } else {
        newlines(text.drop_last()) + if text.last() == '\n' {
            1nat
        } else {
            0nat
        }
    }
}

/// Whether `line` is free of newline characters.
pub open spec fn is_one_line(line: Seq<char>) -> bool {
    forall|i: int| 0 <= i < line.len() ==> line[i] != '\n'
}

/// The newlines of two texts put together are those of both.
pub proof fn lemma_newlines_add(head: Seq<char>, tail: Seq<char>)
    ensures
        newlines(head + tail) == newlines(head) + newlines(tail),
    decreases tail.len(),
{
    if tail.len() > 0 {
        assert((head + tail).drop_last() =~= head + tail.drop_last());
        lemma_newlines_add(head, tail.drop_last());
    }
}

/// A text without newline characters counts none.
pub proof fn lemma_newlines_none(line: Seq<char>)
    requires
        is_one_line(line),
    ensures
        newlines(line) == 0,
    decreases line.len(),
{
    if line.len() > 0 {
        lemma_newlines_none(line.drop_last());
    }
}

/// A text joined from lines that hold no newline themselves has as many
/// newline characters as there were lines.
pub proof fn lemma_join_lines_count(lines: Seq<Seq<char>>)
    requires
        forall|i: int| 0 <= i < lines.len() ==> is_one_line(#[trigger] lines[i]),
    ensures
        newlines(join_lines(lines)) == lines.len(),
    decreases lines.len(),
{
    if lines.len() > 0 {
        let head = join_lines(lines.drop_last());
        lemma_join_lines_count(lines.drop_last());
        lemma_newlines_none(lines.last());
        lemma_newlines_add(head, lines.last());
        lemma_newlines_add(head + lines.last(), seq!['\n']);
        assert(newlines(seq!['\n']) == 1) by {
            reveal_with_fuel(newlines, 2);
        }
    }
}

/// Joining one more line appends that line and a newline.
pub proof fn lemma_join_lines_next(lines: Seq<Seq<char>>, done: int)
    requires
        0 <= done < lines.len(),
    ensures
        join_lines(lines.take(done + 1)) == join_lines(lines.take(done)) + lines[done] + seq![
            '\n',
        ],
{
    assert(lines.take(done + 1).drop_last() =~= lines.take(done));
}

} // verus!

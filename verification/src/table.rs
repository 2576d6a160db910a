//! The table of a report, as text: one line for each block, with the
//! block's number and its entropy.
//!
//! How an entropy is written, to three decimal places, is the caller's
//! arithmetic: the table takes the entropies as cells of text.

use crate::decimal::{
    append_zero_padded, decimal_value, is_digit, lemma_digits_len, lemma_zero_padded, pow10,
    zero_padded,
};
use crate::render::{
    is_one_line, join_lines, lemma_join_lines_count, lemma_join_lines_next, newlines,
};
use vstd::prelude::*;

verus! {

/// The number of digits that a block's number is padded to.
pub const INDEX_WIDTH: usize = 8;

/// The line above and below the column titles.
pub open spec fn rule() -> Seq<char> {
    "--------------------------------------------------------------------------------"@
}

/// The line of column titles.
pub open spec fn titles() -> Seq<char> {
    "Block       Entropy "@
}

/// The number of a block as the table writes it: in decimal, padded with
/// zeros to eight digits.
pub open spec fn index_field(index: nat) -> Seq<char> {
    zero_padded(index, INDEX_WIDTH as nat)
}

/// The line for the block with the number `index`: the number, four
/// spaces, and the cell.
pub open spec fn row(index: nat, cell: Seq<char>) -> Seq<char> {
    index_field(index) + "    "@ + cell
}

/// The lines of the table for `cells`: three header lines, then one row for
/// each cell, numbered from zero.
pub open spec fn table_lines(cells: Seq<Seq<char>>) -> Seq<Seq<char>> {
    seq![rule(), titles(), rule()] + Seq::new(
        cells.len(),
        |index: int| row(index as nat, cells[index]),
    )
}

/// The number that a row begins with consists of decimal digits and reads
/// back as the number of the block, so the numbers rise from row to row. It
/// fills eight digits exactly as long as the number is below a hundred
/// million, and more from there on.
pub proof fn lemma_index_field(index: nat)
    ensures
        forall|i: int|
            0 <= i < index_field(index).len() ==> is_digit(#[trigger] index_field(index)[i]),
        decimal_value(index_field(index)) == index,
        index_field(index).len() >= INDEX_WIDTH,
        index_field(index).len() == INDEX_WIDTH <==> index < 100_000_000,
        forall|cell: Seq<char>| #[trigger]
            row(index, cell).take(index_field(index).len() as int) == index_field(index),
{
    lemma_zero_padded(index, INDEX_WIDTH as nat);
    lemma_digits_len(index, INDEX_WIDTH as nat);
    assert(pow10(INDEX_WIDTH as nat) == 100_000_000) by {
        reveal_with_fuel(pow10, 9);
    }
}

/// The numbers that the rows begin with rise strictly from each row to the
/// rows below it.
pub proof fn lemma_index_fields_rise(above: nat, below: nat)
    requires
        above < below,
    ensures
        decimal_value(index_field(above)) < decimal_value(index_field(below)),
{
    lemma_index_field(above);
    lemma_index_field(below);
}

/// The shape of a table: after three header lines it has one row for each
/// cell, in the order of the cells and numbered from zero; and where no
/// cell holds a newline, the text has as many lines as the header and the
/// cells together.
pub proof fn lemma_table_shape(cells: Seq<Seq<char>>)
    ensures
        table_lines(cells).len() == 3 + cells.len(),
        forall|index: int|
            0 <= index < cells.len() ==> #[trigger] table_lines(cells)[3 + index] == row(
                index as nat,
                cells[index],
            ),
        (forall|index: int| 0 <= index < cells.len() ==> is_one_line(#[trigger] cells[index]))
            ==> newlines(join_lines(table_lines(cells))) == 3 + cells.len(),
{
    if forall|index: int| 0 <= index < cells.len() ==> is_one_line(#[trigger] cells[index]) {
        reveal_strlit(
            "--------------------------------------------------------------------------------",
        );
        reveal_strlit("Block       Entropy ");
        reveal_strlit("    ");
        assert forall|i: int| 0 <= i < table_lines(cells).len() implies is_one_line(
            #[trigger] table_lines(cells)[i],
        ) by {
            if i >= 3 {
                lemma_zero_padded((i - 3) as nat, INDEX_WIDTH as nat);
            }
        }
        lemma_join_lines_count(table_lines(cells));
    }
}

/// Renders the table for `cells`, the entropies of the blocks written out,
/// in the order of the blocks.
pub fn render_table(cells: &[String]) -> (text: String)
    ensures
        text@ == join_lines(table_lines(cells.deep_view())),
{
    let ghost lines = table_lines(cells.deep_view());
    let mut text = String::new();
    proof {
        reveal_strlit("\n");
        lemma_join_lines_next(lines, 0);
        lemma_join_lines_next(lines, 1);
        lemma_join_lines_next(lines, 2);
    }
    text.append("--------------------------------------------------------------------------------");
    text.append("\n");
    text.append("Block       Entropy ");
    text.append("\n");
    text.append("--------------------------------------------------------------------------------");
    text.append("\n");
    let mut index: usize = 0;
    while index < cells.len()
        invariant
            index <= cells.len(),
            lines == table_lines(cells.deep_view()),
            text@ == join_lines(lines.take(3 + index)),
        decreases cells.len() - index,
    {
        proof {
            reveal_strlit("\n");
            lemma_join_lines_next(lines, 3 + index);
        }
        append_zero_padded(&mut text, index, INDEX_WIDTH);
        text.append("    ");
        text.append(cells[index].as_str());
        text.append("\n");
        index = index + 1;
    }
    proof {
        assert(lines.take(3 + cells.len()) =~= lines);
    }
    text
}

} // verus!

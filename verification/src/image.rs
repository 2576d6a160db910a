//! The strip image of a report, as a plain-text PPM file.
//!
//! The image has one pixel column for each block. Low entropy shows blue,
//! high entropy red; how an entropy becomes a [`Shade`] is the caller's
//! arithmetic. The single row of shades is repeated to a band of a tenth of
//! the width, so that the strip can be seen.

use crate::decimal::{append_decimal, digits, lemma_digits_are_digits};
use crate::render::{
    is_one_line, join_lines, lemma_join_lines_count, lemma_join_lines_next, newlines,
};
use vstd::prelude::*;

verus! {

/// The largest value of a colour channel.
pub const MAX_COLOR: u8 = 255;

/// The colour of one block. The green channel of a pixel is always zero.
#[derive(Clone, Copy, Debug, PartialEq, Eq, Structural)]
pub struct Shade {
    /// The red channel: the higher the entropy, the more red.
    pub red: u8,
    /// The blue channel: the lower the entropy, the more blue.
    pub blue: u8,
}

/// The height of the band for an image of `width` columns: a tenth of the
/// width, rounded down, but at least one row.
pub open spec fn band_height(width: nat) -> nat {
    if width / 10 >= 1 {
        width / 10
    } else {
        1
    }
}

/// The line of the header that declares the size.
pub open spec fn size_line(width: nat, height: nat) -> Seq<char> {
    digits(width) + " "@ + digits(height)
}

/// The line that holds one pixel: red, green and blue in decimal.
pub open spec fn pixel_line(shade: Shade) -> Seq<char> {
    digits(shade.red as nat) + " 0 "@ + digits(shade.blue as nat)
}

/// The lines of the image for `shades`: the magic word, the size, the
/// largest channel value, and then the pixels row by row from the top,
/// each row holding the shades in their order.
///
/// For no shades at all these are the three header lines of an image that
/// is zero pixels wide and one pixel high, and no pixel line.
pub open spec fn image_lines(shades: Seq<Shade>) -> Seq<Seq<char>> {
    let width = shades.len();
    let height = band_height(width);
    seq!["P3"@, size_line(width, height), digits(MAX_COLOR as nat)] + Seq::new(
        width * height,
        |pixel: int| pixel_line(shades[pixel % (width as int)]),
    )
}

/// The pixel in row `row` and column `column` stands on its own line after
/// the header and has the shade of its column.
pub proof fn lemma_pixel_at(shades: Seq<Shade>, row: int, column: int)
    requires
        0 <= row < band_height(shades.len()),
        0 <= column < shades.len(),
    ensures
        0 <= row * shades.len() + column < shades.len() * band_height(shades.len()),
        image_lines(shades).len() == 3 + shades.len() * band_height(shades.len()),
        image_lines(shades)[3 + row * shades.len() + column] == pixel_line(shades[column]),
{
    let width = shades.len() as int;
    let height = band_height(shades.len()) as int;
    assert(0 <= row * width + column < width * height) by (nonlinear_arith)
        requires
            0 <= row < height,
            0 <= column < width,
    ;
    assert((row * width + column) % width == column) by (nonlinear_arith)
        requires
            0 <= row,
            0 <= column < width,
    ;
}

/// No line of an image holds a newline character.
pub proof fn lemma_image_lines_whole(shades: Seq<Shade>)
    ensures
        forall|i: int|
            0 <= i < image_lines(shades).len() ==> is_one_line(#[trigger] image_lines(shades)[i]),
{
    reveal_strlit("P3");
    reveal_strlit(" ");
    reveal_strlit(" 0 ");
    let width = shades.len();
    let height = band_height(width);
    lemma_digits_are_digits(width);
    lemma_digits_are_digits(height);
    lemma_digits_are_digits(MAX_COLOR as nat);
    assert forall|i: int| 0 <= i < image_lines(shades).len() implies is_one_line(
        #[trigger] image_lines(shades)[i],
    ) by {
        if i >= 3 {
            let shade = shades[(i - 3) % (width as int)];
            lemma_digits_are_digits(shade.red as nat);
            lemma_digits_are_digits(shade.blue as nat);
        }
    }
}

/// The shape of an image: its header names the format, declares as many
/// columns as there are shades and a band of a tenth of that, at least one
/// row, and gives the largest channel value; and its text has three header
/// lines and one line for each pixel.
pub proof fn lemma_image_shape(shades: Seq<Shade>)
    ensures
        image_lines(shades).len() == 3 + shades.len() * band_height(shades.len()),
        image_lines(shades)[0] == "P3"@,
        image_lines(shades)[1] == size_line(shades.len(), band_height(shades.len())),
        image_lines(shades)[2] == digits(MAX_COLOR as nat),
        newlines(join_lines(image_lines(shades))) == 3 + shades.len() * band_height(
            shades.len(),
        ),
{
    lemma_image_lines_whole(shades);
    lemma_join_lines_count(image_lines(shades));
}

/// The height of the band for an image of `width` columns.
pub fn image_height(width: usize) -> (height: usize)
    ensures
        height == band_height(width as nat),
{
    let tenth: usize = width / 10;
    if tenth >= 1 {
        tenth
    } else {
        1
    }
}

/// Renders the image for `shades`, the shades of the blocks in their order.
///
/// A report without blocks gives an image zero pixels wide: its header
/// declares the size `0 1`, and no pixel follows.
pub fn render_image(shades: &[Shade]) -> (text: String)
    ensures
        text@ == join_lines(image_lines(shades@)),
{
    let width: usize = shades.len();
    let height: usize = image_height(width);
    let ghost lines = image_lines(shades@);
    let mut text = String::new();
    proof {
        reveal_strlit("\n");
        lemma_join_lines_next(lines, 0);
        lemma_join_lines_next(lines, 1);
        lemma_join_lines_next(lines, 2);
    }
    text.append("P3");
    text.append("\n");
    append_decimal(&mut text, width);
    text.append(" ");
    append_decimal(&mut text, height);
    text.append("\n");
    append_decimal(&mut text, 255);
    text.append("\n");
    let mut row: usize = 0;
    while row < height
        invariant
            row <= height,
            width == shades@.len(),
            height == band_height(width as nat),
            lines == image_lines(shades@),
            text@ == join_lines(lines.take(3 + row * width)),
        decreases height - row,
    {
        let mut column: usize = 0;
        while column < width
            invariant
                row < height,
                column <= width,
                width == shades@.len(),
                height == band_height(width as nat),
                lines == image_lines(shades@),
                text@ == join_lines(lines.take(3 + row * width + column)),
            decreases width - column,
        {
            let shade: Shade = shades[column];
            proof {
                reveal_strlit("\n");
                lemma_pixel_at(shades@, row as int, column as int);
                lemma_join_lines_next(lines, 3 + row * width + column);
            }
            append_decimal(&mut text, shade.red as usize);
            text.append(" 0 ");
            append_decimal(&mut text, shade.blue as usize);
            text.append("\n");
            column = column + 1;
        }
        row = row + 1;
        assert(3 + (row - 1) * width + width == 3 + row * width) by (nonlinear_arith);
    }
    proof {
        assert(lines.take(3 + height * width) =~= lines);
    }
    text
}

} // verus!

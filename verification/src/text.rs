//! Building text: characters, decimal numbers, and grids as lines of glyphs.

use crate::cell::{digit_char, digit_glyph, Cell};
use crate::grid::rows;
use vstd::prelude::*;

verus! {

/// `String::push` of the standard library. Trusted, not proved: the
/// character is appended at the end and nothing else changes.
pub assume_specification[ String::push ](s: &mut String, c: char)
    ensures
        final(s)@ == old(s)@.push(c),
;

/// A number written in decimal digits, without leading zeros.
pub open spec fn decimal(n: nat) -> Seq<char>
    decreases n,
{
    if n < 10 {
        seq![digit_glyph(n as int)]
    } else {
        decimal(n / 10).push(digit_glyph((n % 10) as int))
    }
}

/// One row of a grid as text: each cell's glyph, followed by a space.
pub open spec fn line_text(r: Seq<Cell>) -> Seq<char>
    decreases r.len(),
{
    if r.len() == 0 {
        Seq::empty()
    } else {
        line_text(r.drop_last()).push(r.last().glyph()).push(' ')
    }
}

/// A grid as text: each row's line, followed by a line break.
pub open spec fn frame_text(m: Seq<Seq<Cell>>) -> Seq<char>
    decreases m.len(),
{
    if m.len() == 0 {
        Seq::empty()
    } else {
        (frame_text(m.drop_last()) + line_text(m.last())).push('\n')
    }
}

/// Appends `n` in decimal digits.
pub fn push_decimal(s: &mut String, n: usize)
    ensures
        final(s)@ == old(s)@ + decimal(n as nat),
    decreases n,
{
    if n >= 10 {
        push_decimal(s, n / 10);
    }
    s.push(digit_char(n % 10));
}

/// Appends the line of one row.
pub fn push_line(s: &mut String, row: &Vec<Cell>)
    ensures
        final(s)@ == old(s)@ + line_text(row@),
{
    let mut x: usize = 0;
    while x < row.len()
        invariant
            x <= row@.len(),
            s@ == old(s)@ + line_text(row@.take(x as int)),
        decreases row@.len() - x,
    {
        proof {
            assert(row@.take(x + 1).drop_last() =~= row@.take(x as int));
        }
        s.push(row[x].to_char());
        s.push(' ');
        x += 1;
    }
    assert(row@.take(x as int) =~= row@);
}

/// A grid as text, ready to be printed.
pub fn frame(grid: &Vec<Vec<Cell>>) -> (text: String)
    ensures
        text@ == frame_text(rows(grid)),
{
    let mut text = String::new();
    let mut y: usize = 0;
    while y < grid.len()
        invariant
            y <= grid@.len(),
            text@ == frame_text(rows(grid).take(y as int)),
        decreases grid@.len() - y,
    {
        proof {
            assert(rows(grid).take(y + 1).drop_last() =~= rows(grid).take(y as int));
        }
        push_line(&mut text, &grid[y]);
        text.push('\n');
        y += 1;
    }
    assert(rows(grid).take(y as int) =~= rows(grid));
    text
}

} // verus!

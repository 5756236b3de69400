//! Drawing frames: what a display is asked to show, as text.

use vstd::prelude::*;

verus! {

/// The rows of a frame as plain sequences of glyphs.
pub open spec fn glyph_rows(map: &Vec<Vec<char>>) -> Seq<Seq<char>> {
    Seq::new(map@.len(), |y: int| map@[y]@)
}

/// A frame as terminal text: each row's glyphs, followed by a line break.
pub open spec fn drawn(m: Seq<Seq<char>>) -> Seq<char>
    decreases m.len(),
{
    if m.len() == 0 {
        Seq::empty()
    } else {
        (drawn(m.drop_last()) + m.last()).push('\n')
    }
}

/// What a terminal takes as the order to wipe the screen and move the cursor
/// to the top left corner.
pub open spec fn wipe() -> Seq<char> {
    seq!['\u{1b}', '[', '2', 'J', '\u{1b}', '[', 'H']
}

/// A display surface. An implementation says what has to be written to its
/// device; the caller does the writing.
pub trait Renderer {
    /// What shows the frame `map`, a sequence of rows of glyphs.
    fn draw_map(&self, map: &Vec<Vec<char>>) -> String;

    /// What clears the surface.
    fn clean(&self) -> String;
}

/// A text terminal.
pub struct TerminalRenderer;

impl Renderer for TerminalRenderer {
    fn draw_map(&self, map: &Vec<Vec<char>>) -> (text: String)
        ensures
            text@ == drawn(glyph_rows(map)),
    {
        let mut text = String::new();
        let mut y: usize = 0;
        while y < map.len()
            invariant
                y <= map@.len(),
                text@ == drawn(glyph_rows(map).take(y as int)),
            decreases map@.len() - y,
        {
            let row = &map[y];
            let ghost start = text@;
            let mut x: usize = 0;
            while x < row.len()
                invariant
                    x <= row@.len(),
                    text@ == start + row@.take(x as int),
                decreases row@.len() - x,
            {
                text.push(row[x]);
                x += 1;
            }
            text.push('\n');
            proof {
                assert(glyph_rows(map).take(y + 1).drop_last() =~= glyph_rows(map).take(y as int));
            }
            y += 1;
        }
        assert(glyph_rows(map).take(y as int) =~= glyph_rows(map));
        text
    }

    fn clean(&self) -> (text: String)
        ensures
            text@ == wipe(),
    {
        let mut text = String::new();
        text.push('\u{1b}');
        text.push('[');
        text.push('2');
        text.push('J');
        text.push('\u{1b}');
        text.push('[');
        text.push('H');
        text
    }
}

} // verus!

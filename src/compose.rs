use crate::atlas::{tile_coords, GlyphAtlas};
use vstd::prelude::*;

verus! {

/// One placed glyph as the compute pass reads it: the tile of the atlas to
/// copy from and the text cell to write to.
#[derive(Clone, Copy, Debug, PartialEq, Eq)]
pub struct Glyph {
    pub atlas_x: u32,
    pub atlas_y: u32,
    pub pos_x: u32,
    pub pos_y: u32,
}

/// Placements for `text` together with the cursor (column, line) reached
/// after it. A character with a glyph is placed at the cursor, which then
/// moves one column right; a newline without a glyph moves the cursor to
/// the start of the next line; any other character without a glyph is
/// skipped and the cursor stays.
pub open spec fn place(text: Seq<char>, atlas: GlyphAtlas) -> (Seq<Glyph>, int, int)
    decreases text.len(),
{
    if text.len() == 0 {
        (Seq::empty(), 0, 0)
    } else {
        let (placed, x, y) = place(text.drop_last(), atlas);
        let c = text.last();
        match atlas.tile_of(c) {
            Some(i) => {
                let (tx, ty) = tile_coords(i, atlas.layout.glyphs_per_row as int);
                (
                    placed.push(
                        Glyph { atlas_x: tx as u32, atlas_y: ty as u32, pos_x: x as u32, pos_y: y as u32 },
                    ),
                    x + 1,
                    y,
                )
            },
            None => if c == '\n' {
                (placed, 0, y + 1)
            } else {
                (placed, x, y)
            },
        }
    }
}

/// The placements that one frame writes for `text`.
pub open spec fn placements_of(text: Seq<char>, atlas: GlyphAtlas) -> Seq<Glyph> {
    place(text, atlas).0
}

proof fn lemma_place_bounds(text: Seq<char>, atlas: GlyphAtlas)
    ensures
        0 <= place(text, atlas).1 <= text.len(),
        0 <= place(text, atlas).2 <= text.len(),
        place(text, atlas).0.len() <= text.len(),
    decreases text.len(),
{
    if text.len() > 0 {
        lemma_place_bounds(text.drop_last(), atlas);
    }
}

/// Lays out `text` on a grid of glyph cells: one entry per character that
/// the atlas has a glyph for, in text order.
pub fn placements(text: &Vec<char>, atlas: &GlyphAtlas) -> (r: Vec<Glyph>)
    requires
        atlas.wf(),
        text@.len() <= u32::MAX,
    ensures
        r@ == placements_of(text@, *atlas),
{
    let mut out: Vec<Glyph> = Vec::new();
    let mut x: u32 = 0;
    let mut y: u32 = 0;
    let mut n: usize = 0;
    while n < text.len()
        invariant
            atlas.wf(),
            text@.len() <= u32::MAX,
            0 <= n <= text@.len(),
            place(text@.take(n as int), *atlas) == (out@, x as int, y as int),
        decreases text@.len() - n,
    {
        let c = text[n];
        proof {
            assert(text@.take(n + 1).drop_last() == text@.take(n as int));
            assert(text@.take(n + 1).last() == c);
            lemma_place_bounds(text@.take(n as int), *atlas);
        }
        match atlas.get(c) {
            Some((tx, ty)) => {
                out.push(Glyph { atlas_x: tx as u32, atlas_y: ty as u32, pos_x: x, pos_y: y });
                x = x + 1;
            },
            None => {
                if c == '\n' {
                    y = y + 1;
                    x = 0;
                }
            },
        }
        n = n + 1;
    }
    proof {
        assert(text@.take(n as int) == text@);
    }
    out
}

#[verifier::external_type_specification]
#[verifier::external_body]
pub struct ExRope(ropey::Rope);

/// The characters a rope holds, in order.
pub uninterp spec fn rope_text(r: ropey::Rope) -> Seq<char>;

/// Relies on ropey's `Rope::chars`: iterates over the chars of the rope.
#[verifier::external_body]
fn rope_chars(text: &ropey::Rope) -> (r: Vec<char>)
    ensures
        r@ == rope_text(*text),
{
    text.chars().collect()
}

/// Placements for the text of a rope; `None` when the text is longer than
/// the 32-bit cell positions reach.
pub fn update_buffer(text: &ropey::Rope, atlas: &GlyphAtlas) -> (r: Option<Vec<Glyph>>)
    requires
        atlas.wf(),
    ensures
        rope_text(*text).len() <= u32::MAX ==> r is Some && r->0@ == placements_of(rope_text(*text), *atlas),
        rope_text(*text).len() > u32::MAX ==> r is None,
{
    let chars = rope_chars(text);
    if chars.len() > u32::MAX as usize {
        None
    } else {
        Some(placements(&chars, atlas))
    }
}

} // verus!

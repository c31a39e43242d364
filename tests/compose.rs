use kavi::atlas::{BitmapFont, BitmapGlyph, GlyphAtlas};
use kavi::compose::{placements, update_buffer, Glyph};

fn atlas_of(chars: &str) -> GlyphAtlas {
    let glyphs = chars
        .chars()
        .map(|c| BitmapGlyph { codepoint: c, x: 0, y: 0, width: 1, height: 1, pixels: vec![(0, 0)] })
        .collect();
    let font = BitmapFont { glyph_width: 5, glyph_height: 11, ascent: Some(1), glyphs };
    GlyphAtlas::new(&font).unwrap().0
}

fn at(tile: (u16, u16), pos_x: u32, pos_y: u32) -> Glyph {
    Glyph { atlas_x: tile.0 as u32, atlas_y: tile.1 as u32, pos_x, pos_y }
}

#[test]
fn newline_starts_next_line() {
    let atlas = atlas_of("abc");
    let text: Vec<char> = "ab\nc".chars().collect();
    let placed = placements(&text, &atlas);
    assert_eq!(placed.len(), 3);
    assert_eq!(
        placed,
        vec![
            at(atlas.get('a').unwrap(), 0, 0),
            at(atlas.get('b').unwrap(), 1, 0),
            at(atlas.get('c').unwrap(), 0, 1),
        ]
    );
}

#[test]
fn unmapped_characters_are_skipped_without_advancing() {
    let atlas = atlas_of("ab");
    let text: Vec<char> = "a?b".chars().collect();
    let placed = placements(&text, &atlas);
    assert_eq!(placed, vec![at(atlas.get('a').unwrap(), 0, 0), at(atlas.get('b').unwrap(), 1, 0)]);
}

#[test]
fn empty_text_places_nothing() {
    let atlas = atlas_of("a");
    assert!(placements(&vec![], &atlas).is_empty());
}

#[test]
fn rope_text_is_placed_in_order() {
    let atlas = atlas_of("abc");
    let rope = ropey::Rope::from_str("ca\n\nb");
    let placed = update_buffer(&rope, &atlas).unwrap();
    assert_eq!(
        placed,
        vec![
            at(atlas.get('c').unwrap(), 0, 0),
            at(atlas.get('a').unwrap(), 1, 0),
            at(atlas.get('b').unwrap(), 0, 2),
        ]
    );
}

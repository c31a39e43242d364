use kavi::atlas::{atlas_layout, check_font, AtlasLayout, BitmapFont, BitmapGlyph, FontError, GlyphAtlas};

fn glyph(codepoint: char, pixels: Vec<(u32, u32)>) -> BitmapGlyph {
    BitmapGlyph { codepoint, x: 0, y: 0, width: 2, height: 2, pixels }
}

fn font(glyphs: Vec<BitmapGlyph>) -> BitmapFont {
    BitmapFont { glyph_width: 2, glyph_height: 2, ascent: Some(2), glyphs }
}

#[test]
fn one_glyph_of_eight_fills_eight_by_eight() {
    let l = atlas_layout(8, 8, 1);
    assert_eq!(l, AtlasLayout { texture_width: 8, texture_height: 8, glyphs_per_row: 1 });
}

#[test]
fn five_glyphs_of_eight_take_two_rows_of_four() {
    let l = atlas_layout(8, 8, 5);
    assert_eq!(l.texture_width, 32);
    assert_eq!(l.glyphs_per_row, 4);
    assert_eq!(l.texture_height, 16);
}

#[test]
fn narrow_cells_pack_into_short_texture() {
    // 5x11 cells, 95 glyphs: width 128 gives 25 columns x 11 rows
    let l = atlas_layout(5, 11, 95);
    assert_eq!(l, AtlasLayout { texture_width: 128, texture_height: 64, glyphs_per_row: 25 });
}

#[test]
fn tile_coordinates_round_trip() {
    let glyphs: Vec<BitmapGlyph> =
        "abcdefghijklm".chars().map(|c| glyph(c, vec![])).collect();
    let (atlas, _) = GlyphAtlas::new(&font(glyphs)).unwrap();
    for i in 0..13u16 {
        let (x, y) = atlas.idx_to_coords(i);
        assert_eq!(atlas.coords_to_index(x, y), Some(i));
    }
    assert_eq!(atlas.idx_to_coords(5), (1, 1));
    assert_eq!(atlas.coords_to_index(4, 0), None);
}

#[test]
fn lookup_gives_tile_of_character() {
    let glyphs = vec![glyph('a', vec![]), glyph('b', vec![]), glyph('c', vec![])];
    let (atlas, _) = GlyphAtlas::new(&font(glyphs)).unwrap();
    assert_eq!(atlas.get('a'), Some((0, 0)));
    assert_eq!(atlas.get('b'), Some((1, 0)));
    assert_eq!(atlas.get('c'), Some((0, 1)));
    assert_eq!(atlas.get('\n'), None);
}

#[test]
fn rasterizes_covered_pixels_at_full_intensity() {
    // 3 glyphs of 2x2: texture 4x4, 2 per row
    let glyphs = vec![
        glyph('a', vec![(0, 0)]),
        glyph('b', vec![(1, 1)]),
        BitmapGlyph { codepoint: 'c', x: 1, y: 1, width: 1, height: 1, pixels: vec![(0, 0)] },
    ];
    let (atlas, pixels) = GlyphAtlas::new(&font(glyphs)).unwrap();
    assert_eq!(atlas.layout, AtlasLayout { texture_width: 4, texture_height: 4, glyphs_per_row: 2 });
    let mut expected = vec![0u8; 16];
    expected[0] = 255; // 'a' at (0, 0)
    expected[3 + 4] = 255; // 'b' at (3, 1)
    expected[1 + 4 * 2] = 255; // 'c': x offset 1, row 2 - 1 - 1 + 0 = 0 of tile row 1
    assert_eq!(pixels, expected);
}

#[test]
fn missing_ascent_is_an_error() {
    let mut f = font(vec![glyph('a', vec![])]);
    f.ascent = None;
    assert_eq!(GlyphAtlas::new(&f).unwrap_err(), FontError::MissingAscent);
}

#[test]
fn empty_font_is_an_error() {
    assert_eq!(check_font(&font(vec![])), Err(FontError::NoGlyphs));
}

#[test]
fn zero_cell_is_an_error() {
    let mut f = font(vec![glyph('a', vec![])]);
    f.glyph_width = 0;
    assert_eq!(check_font(&f), Err(FontError::BadCellSize));
}

#[test]
fn too_many_glyphs_is_an_error() {
    let glyphs: Vec<BitmapGlyph> = (0..65537u32)
        .map(|i| glyph(char::from_u32(0x10000 + i).unwrap(), vec![]))
        .collect();
    assert_eq!(check_font(&font(glyphs)), Err(FontError::TooManyGlyphs));
}

#[test]
fn duplicate_glyph_is_an_error() {
    assert_eq!(
        check_font(&font(vec![glyph('a', vec![]), glyph('a', vec![])])),
        Err(FontError::DuplicateGlyph)
    );
}

#[test]
fn pixel_outside_cell_is_an_error() {
    assert_eq!(check_font(&font(vec![glyph('a', vec![(2, 0)])])), Err(FontError::GlyphOutsideCell));
}

#[test]
fn parse_bdf() {
    // a 3x3 font with glyphs for 'i' and 'l'
    let f = BitmapFont {
        glyph_width: 3,
        glyph_height: 3,
        ascent: Some(3),
        glyphs: vec![
            BitmapGlyph { codepoint: 'i', x: 1, y: 0, width: 1, height: 3, pixels: vec![(0, 0), (0, 2)] },
            BitmapGlyph { codepoint: 'l', x: 1, y: 0, width: 1, height: 3, pixels: vec![(0, 0), (0, 1), (0, 2)] },
        ],
    };
    let glyph_count = f.glyphs.len() as u32;
    assert!(glyph_count > 0);
    let (atlas, data) = GlyphAtlas::new(&f).unwrap();
    let width = atlas.layout.texture_width as usize;
    assert_eq!(atlas.layout, AtlasLayout { texture_width: 8, texture_height: 4, glyphs_per_row: 2 });
    let mut picture = String::new();
    for (i, &px) in data.iter().enumerate() {
        if i % width == 0 {
            picture.push('\n');
        }
        picture.push(if px != 0 { '#' } else { '.' });
    }
    assert_eq!(picture, "\n.#..#...\n....#...\n.#..#...\n........");
}

use vstd::arithmetic::div_mod::{lemma_div_is_ordered, lemma_div_multiples_vanish, lemma_multiply_divide_lt};
use vstd::arithmetic::power2::{lemma_pow2_strictly_increases, lemma_pow2_unfold, pow2};
use vstd::prelude::*;

verus! {

/// A texture width fits `count` glyph cells of `gw` x `gh` pixels when the
/// number of columns times the number of rows it offers reaches `count`.
pub open spec fn fits_width(w: int, gw: int, gh: int, count: int) -> bool {
    (w / gw) * (w / gh) >= count
}

/// Number of rows needed to hold `count` glyphs at `per_row` glyphs per row.
pub open spec fn rows_needed(count: int, per_row: int) -> int {
    (count + per_row - 1) / per_row
}

/// A texture height accommodates `rows` rows of `gh` pixels each.
pub open spec fn fits_height(h: int, gh: int, rows: int) -> bool {
    h / gh >= rows
}

/// Size of the packed glyph texture.
#[derive(Clone, Copy, Debug, PartialEq, Eq)]
pub struct AtlasLayout {
    pub texture_width: u32,
    pub texture_height: u32,
    pub glyphs_per_row: u32,
}

/// The packing rule: the smallest power-of-two width whose grid holds every
/// glyph, then, halving from that width, the smallest height that still holds
/// the rows the glyphs need.
pub open spec fn is_packing(l: AtlasLayout, gw: int, gh: int, count: int) -> bool {
    &&& l.texture_width <= 512 * MAX_GLYPHS
    &&& exists|k: nat| l.texture_width as int == pow2(k)
    &&& fits_width(l.texture_width as int, gw, gh, count)
    &&& forall|j: nat| pow2(j) < l.texture_width ==> !fits_width(pow2(j) as int, gw, gh, count)
    &&& l.glyphs_per_row as int == l.texture_width as int / gw
    &&& exists|m: nat| l.texture_height as int * pow2(m) == l.texture_width as int
    &&& 1 <= l.texture_height <= l.texture_width
    &&& fits_height(l.texture_height as int, gh, rows_needed(count, l.glyphs_per_row as int))
    &&& !fits_height(l.texture_height as int / 2, gh, rows_needed(count, l.glyphs_per_row as int))
}

/// Most glyphs an atlas holds, tile indices being 16-bit; glyph cell sides
/// stay below it too.
pub const MAX_GLYPHS: u32 = 65536;

proof fn lemma_wide_enough_fits(w: int, gw: int, gh: int, count: int)
    requires
        0 < gw,
        0 < gh,
        0 < count <= 65536,
        w >= 256 * gw,
        w >= 256 * gh,
    ensures
        fits_width(w, gw, gh, count),
{
    lemma_div_is_ordered(256 * gw, w, gw);
    lemma_div_multiples_vanish(256, gw);
    assert(gw * 256 == 256 * gw);
    lemma_div_is_ordered(256 * gh, w, gh);
    lemma_div_multiples_vanish(256, gh);
    assert(gh * 256 == 256 * gh);
    let a = w / gw;
    let b = w / gh;
    assert(a * b >= 65536) by (nonlinear_arith)
        requires
            a >= 256,
            b >= 256,
    ;
}

proof fn lemma_rows_fit(w: int, gw: int, gh: int, count: int)
    requires
        0 < gw,
        0 < gh,
        0 < count,
        1 <= w,
        fits_width(w, gw, gh, count),
    ensures
        w / gw > 0,
        fits_height(w, gh, rows_needed(count, w / gw)),
{
    let per_row = w / gw;
    let cols = w / gh;
    if per_row <= 0 {
        assert(per_row * cols <= 0) by (nonlinear_arith)
            requires
                per_row <= 0,
                cols >= 0,
        ;
    }
    assert(count + per_row - 1 < per_row * (cols + 1)) by (nonlinear_arith)
        requires
            per_row * cols >= count,
            per_row > 0,
    ;
    lemma_multiply_divide_lt(count + per_row - 1, per_row, cols + 1);
}

/// Computes the texture size for `glyph_count` glyph cells of
/// `glyph_width` x `glyph_height` pixels.
pub fn atlas_layout(glyph_width: u32, glyph_height: u32, glyph_count: u32) -> (r: AtlasLayout)
    requires
        0 < glyph_width < MAX_GLYPHS,
        0 < glyph_height < MAX_GLYPHS,
        0 < glyph_count <= MAX_GLYPHS,
    ensures
        is_packing(r, glyph_width as int, glyph_height as int, glyph_count as int),
{
    let gw = glyph_width as u64;
    let gh = glyph_height as u64;
    let count = glyph_count as u64;
    let bound: u64 = if gw > gh { 256 * gw } else { 256 * gh };
    let mut w: u64 = 1;
    let ghost mut k: nat = 0;
    proof {
        reveal_with_fuel(vstd::arithmetic::power::pow, 1);
    }
    loop
        invariant_except_break
            forall|j: nat| j < k ==> !fits_width(pow2(j) as int, gw as int, gh as int, count as int),
        invariant
            0 < gw < 65536,
            0 < gh < 65536,
            0 < count <= 65536,
            bound == if gw > gh { 256 * gw } else { 256 * gh },
            w == pow2(k),
            1 <= w < 2 * bound,
            forall|j: nat| j < k ==> !fits_width(pow2(j) as int, gw as int, gh as int, count as int),
        ensures
            fits_width(w as int, gw as int, gh as int, count as int),
        decreases 2 * bound - w,
    {
        let cols = w / gw;
        let col_rows = w / gh;
        proof {
            assert(cols <= w && col_rows <= w) by (nonlinear_arith)
                requires
                    cols == w / gw,
                    col_rows == w / gh,
                    gw >= 1,
                    gh >= 1,
                    w >= 1,
            ;
            assert(cols * col_rows <= 0x4_0000_0000_0000) by (nonlinear_arith)
                requires
                    cols <= w,
                    col_rows <= w,
                    w < 0x200_0000,
            ;
        }
        if cols * col_rows >= count {
            break;
        }
        proof {
            if w >= bound {
                lemma_wide_enough_fits(w as int, gw as int, gh as int, count as int);
            }
            lemma_pow2_unfold(k + 1);
        }
        w = w * 2;
        proof {
            k = k + 1;
        }
    }
    proof {
        assert forall|j: nat| pow2(j) < w implies !fits_width(pow2(j) as int, gw as int, gh as int, count as int) by {
            if j >= k {
                if j > k {
                    lemma_pow2_strictly_increases(k, j);
                }
            }
        }
        lemma_rows_fit(w as int, gw as int, gh as int, count as int);
    }
    let per_row = w / gw;
    proof {
        assert(per_row <= w) by (nonlinear_arith)
            requires
                per_row == w / gw,
                gw >= 1,
                w >= 1,
        ;
        lemma_div_is_ordered(per_row as int, (count + per_row - 1) as int, per_row as int);
        lemma_div_multiples_vanish(1, per_row as int);
    }
    let rows = (count + per_row - 1) / per_row;
    let mut h: u64 = w;
    let ghost mut m: nat = 0;
    while (h / 2) / gh >= rows
        invariant
            0 < gh < 65536,
            0 < per_row,
            rows == rows_needed(count as int, per_row as int),
            rows >= 1,
            m <= k,
            h == pow2((k - m) as nat),
            w == pow2(k),
            h * pow2(m) == w,
            1 <= h <= w,
            w < 2 * bound,
            bound <= 256 * 65536,
            fits_height(h as int, gh as int, rows as int),
        decreases h,
    {
        proof {
            if k == m {
                assert(h == 1) by {
                    reveal_with_fuel(vstd::arithmetic::power::pow, 1);
                }
            }
            lemma_pow2_unfold((k - m) as nat);
            lemma_pow2_unfold(m + 1);
            assert(((k - m) as nat - 1) as nat == (k - (m + 1)) as nat);
            assert((h / 2) * pow2(m + 1) == (h / 2) * (2 * pow2(m))) ;
            assert((h / 2) * (2 * pow2(m)) == ((h / 2) * 2) * pow2(m)) by (nonlinear_arith);
        }
        h = h / 2;
        proof {
            m = m + 1;
        }
    }
    AtlasLayout { texture_width: w as u32, texture_height: h as u32, glyphs_per_row: per_row as u32 }
}


/// One glyph of a bitmap font: its character, its bounding box within the
/// glyph cell (`x`, `y` offsets as the font states them) and the pixels it
/// covers, given as (column, row) within its own bitmap.
#[derive(Debug)]
pub struct BitmapGlyph {
    pub codepoint: char,
    pub x: i32,
    pub y: i32,
    pub width: u32,
    pub height: u32,
    pub pixels: Vec<(u32, u32)>,
}

/// A bitmap font: the cell size shared by every glyph, the font's ascent
/// (absent when the font file does not state it) and its glyphs.
#[derive(Debug)]
pub struct BitmapFont {
    pub glyph_width: u32,
    pub glyph_height: u32,
    pub ascent: Option<i32>,
    pub glyphs: Vec<BitmapGlyph>,
}

/// Why a font cannot be packed into an atlas.
#[derive(Clone, Copy, Debug, PartialEq, Eq)]
pub enum FontError {
    /// The font does not state its ascent.
    MissingAscent,
    /// The font has no glyph.
    NoGlyphs,
    /// A glyph cell side is zero or too large.
    BadCellSize,
    /// The font has more glyphs than 16-bit tile indices reach.
    TooManyGlyphs,
    /// Two glyphs are for the same character.
    DuplicateGlyph,
    /// A covered pixel of a glyph falls outside its cell once placed.
    GlyphOutsideCell,
    /// The texture has more bytes than this machine can address.
    TextureTooLarge,
}

/// Column of a covered pixel within its cell: the glyph's horizontal offset
/// plus the pixel's column.
pub open spec fn cell_x(g: BitmapGlyph, k: int) -> int {
    g.x + g.pixels@[k].0
}

/// Row of a covered pixel within its cell, so that baselines line up:
/// `ascent - y_offset - height` plus the pixel's row.
pub open spec fn cell_y(g: BitmapGlyph, ascent: int, k: int) -> int {
    ascent - g.y - g.height + g.pixels@[k].1
}

pub open spec fn pixels_in_cell(g: BitmapGlyph, gw: int, gh: int, ascent: int) -> bool {
    forall|k: int|
        0 <= k < g.pixels@.len() ==> 0 <= #[trigger] cell_x(g, k) < gw && 0 <= cell_y(g, ascent, k) < gh
}

pub open spec fn codepoints_unique(glyphs: Seq<BitmapGlyph>) -> bool {
    forall|i: int, j: int|
        0 <= i < glyphs.len() && 0 <= j < glyphs.len() && i != j ==> glyphs[i].codepoint
            != glyphs[j].codepoint
}

/// The first reason, in the order they are checked, why `font` cannot be
/// packed; `None` when it can.
pub open spec fn font_error(font: BitmapFont) -> Option<FontError> {
    if font.ascent is None {
        Some(FontError::MissingAscent)
    } else if font.glyphs@.len() == 0 {
        Some(FontError::NoGlyphs)
    } else if !(0 < font.glyph_width < MAX_GLYPHS && 0 < font.glyph_height < MAX_GLYPHS) {
        Some(FontError::BadCellSize)
    } else if font.glyphs@.len() > MAX_GLYPHS {
        Some(FontError::TooManyGlyphs)
    } else if !codepoints_unique(font.glyphs@) {
        Some(FontError::DuplicateGlyph)
    } else if !(forall|i: int|
        0 <= i < font.glyphs@.len() ==> pixels_in_cell(
            #[trigger] font.glyphs@[i],
            font.glyph_width as int,
            font.glyph_height as int,
            font.ascent->0 as int,
        )) {
        Some(FontError::GlyphOutsideCell)
    } else {
        None
    }
}

/// Tile coordinates of tile index `i` in a grid `per_row` tiles wide.
pub open spec fn tile_coords(i: int, per_row: int) -> (int, int) {
    (i % per_row, i / per_row)
}

/// A pair of 16-bit tile coordinates equals a pair of mathematical ones.
pub open spec fn same_coords(p: (u16, u16), q: (int, int)) -> bool {
    p.0 as int == q.0 && p.1 as int == q.1
}

/// Byte offset in the atlas texture of covered pixel `k` of glyph `i`.
pub open spec fn pixel_offset(l: AtlasLayout, gw: int, gh: int, ascent: int, i: int, g: BitmapGlyph, k: int) -> int {
    let (tx, ty) = tile_coords(i, l.glyphs_per_row as int);
    (gw * tx + cell_x(g, k)) + l.texture_width * (gh * ty + cell_y(g, ascent, k))
}

/// Whether some covered glyph pixel lands on byte `p` of the texture.
pub open spec fn covered(font: BitmapFont, l: AtlasLayout, p: int) -> bool {
    exists|i: int, k: int|
        0 <= i < font.glyphs@.len() && 0 <= k < font.glyphs@[i].pixels@.len() && #[trigger] pixel_offset(
            l,
            font.glyph_width as int,
            font.glyph_height as int,
            font.ascent->0 as int,
            i,
            font.glyphs@[i],
            k,
        ) == p
}

/// The packed glyph texture: the tile grid and the character held by each
/// tile, tile `i` holding `chars[i]`.
#[derive(Debug)]
pub struct GlyphAtlas {
    pub layout: AtlasLayout,
    pub glyph_width: u32,
    pub glyph_height: u32,
    pub chars: Vec<char>,
}

impl GlyphAtlas {
    pub open spec fn wf(&self) -> bool {
        &&& 0 < self.glyph_width < MAX_GLYPHS
        &&& 0 < self.glyph_height < MAX_GLYPHS
        &&& 0 < self.chars@.len() <= MAX_GLYPHS
        &&& is_packing(self.layout, self.glyph_width as int, self.glyph_height as int, self.chars@.len() as int)
        &&& forall|i: int, j: int|
            0 <= i < self.chars@.len() && 0 <= j < self.chars@.len() && i != j ==> self.chars@[i]
                != self.chars@[j]
    }

    /// Tile index held by character `c`, if any tile holds it.
    pub open spec fn tile_of(&self, c: char) -> Option<int> {
        if exists|i: int| 0 <= i < self.chars@.len() && self.chars@[i] == c {
            Some(choose|i: int| 0 <= i < self.chars@.len() && self.chars@[i] == c)
        } else {
            None
        }
    }

    /// Tile coordinates of tile index `idx`.
    pub fn idx_to_coords(&self, idx: u16) -> (r: (u16, u16))
        requires
            self.wf(),
        ensures
            (r.0 as int, r.1 as int) == tile_coords(idx as int, self.layout.glyphs_per_row as int),
    {
        proof {
            lemma_rows_fit(
                self.layout.texture_width as int,
                self.glyph_width as int,
                self.glyph_height as int,
                self.chars@.len() as int,
            );
        }
        let row_length = self.layout.glyphs_per_row;
        let i = idx as u32;
        let x = i % row_length;
        let y = i / row_length;
        proof {
            assert(x <= i && y <= i) by (nonlinear_arith)
                requires
                    x == i % row_length,
                    y == i / row_length,
                    row_length > 0,
            ;
        }
        (x as u16, y as u16)
    }

    /// Tile index at tile coordinates (`x`, `y`).
    pub fn coords_to_index(&self, x: u16, y: u16) -> (r: Option<u16>)
        requires
            self.wf(),
        ensures
            r == (if (x as int) < self.layout.glyphs_per_row && y as int * self.layout.glyphs_per_row + x
                < MAX_GLYPHS { Some((y as int * self.layout.glyphs_per_row + x) as u16) } else { None }),
    {
        let row_length = self.layout.glyphs_per_row as u64;
        proof {
            let w = self.layout.texture_width as int;
            let gw = self.glyph_width as int;
            assert(w / gw <= w) by (nonlinear_arith)
                requires
                    gw >= 1,
                    w >= 0,
            ;
            assert(y as int * row_length <= 0xffff * 0x200_0000) by (nonlinear_arith)
                requires
                    y <= 0xffff,
                    row_length <= 0x200_0000,
            ;
        }
        if (x as u64) < row_length && (y as u64) * row_length + (x as u64) < MAX_GLYPHS as u64 {
            Some(((y as u64) * row_length + (x as u64)) as u16)
        } else {
            None
        }
    }

    /// Tile coordinates of character `c`, or `None` when the atlas has no
    /// glyph for it.
    pub fn get(&self, c: char) -> (r: Option<(u16, u16)>)
        requires
            self.wf(),
        ensures
            match self.tile_of(c) {
                Some(i) => r is Some && same_coords(r->0, tile_coords(i, self.layout.glyphs_per_row as int)),
                None => r is None,
            },
    {
        let mut i: usize = 0;
        while i < self.chars.len()
            invariant
                self.wf(),
                0 <= i <= self.chars@.len(),
                forall|j: int| 0 <= j < i ==> self.chars@[j] != c,
            decreases self.chars@.len() - i,
        {
            if self.chars[i] == c {
                proof {
                    let t = self.tile_of(c)->0;
                    assert(self.chars@[t] == c);
                }
                return Some(self.idx_to_coords(i as u16));
            }
            i = i + 1;
        }
        None
    }
}

/// Coordinates and index of a tile name each other: going from a tile index
/// to its coordinates and back gives the index again.
pub proof fn lemma_coords_round_trip(atlas: &GlyphAtlas, i: int)
    requires
        atlas.wf(),
        0 <= i < atlas.chars@.len(),
    ensures
        ({
            let per_row = atlas.layout.glyphs_per_row as int;
            let (x, y) = tile_coords(i, per_row);
            0 <= x < per_row && y * per_row + x == i
        }),
{
    lemma_rows_fit(
        atlas.layout.texture_width as int,
        atlas.glyph_width as int,
        atlas.glyph_height as int,
        atlas.chars@.len() as int,
    );
    let per_row = atlas.layout.glyphs_per_row as int;
    vstd::arithmetic::div_mod::lemma_fundamental_div_mod(i, per_row);
    vstd::arithmetic::div_mod::lemma_mod_bound(i, per_row);
    assert((i / per_row) * per_row == per_row * (i / per_row)) by (nonlinear_arith);
}


/// Whether a covered pixel among those of glyphs before `i`, or among the
/// first `k` pixels of glyph `i`, lands on byte `p`.
pub open spec fn covered_before(font: BitmapFont, l: AtlasLayout, i: int, k: int, p: int) -> bool {
    exists|i2: int, k2: int|
        0 <= i2 <= i && 0 <= k2 < font.glyphs@[i2].pixels@.len() && (i2 < i || k2 < k) && #[trigger] pixel_offset(
            l,
            font.glyph_width as int,
            font.glyph_height as int,
            font.ascent->0 as int,
            i2,
            font.glyphs@[i2],
            k2,
        ) == p
}

proof fn lemma_offset_in_texture(font: BitmapFont, l: AtlasLayout, i: int, k: int)
    requires
        font_error(font) is None,
        is_packing(l, font.glyph_width as int, font.glyph_height as int, font.glyphs@.len() as int),
        0 <= i < font.glyphs@.len(),
        0 <= k < font.glyphs@[i].pixels@.len(),
    ensures
        ({
            let gw = font.glyph_width as int;
            let gh = font.glyph_height as int;
            let (tx, ty) = tile_coords(i, l.glyphs_per_row as int);
            let a = gw * tx + cell_x(font.glyphs@[i], k);
            let b = gh * ty + cell_y(font.glyphs@[i], font.ascent->0 as int, k);
            &&& 0 <= tx && 0 <= ty
            &&& 0 <= a < l.texture_width
            &&& 0 <= b < l.texture_height
            &&& l.texture_width * b <= l.texture_width * (l.texture_height - 1)
            &&& pixel_offset(l, gw, gh, font.ascent->0 as int, i, font.glyphs@[i], k) == a + l.texture_width * b
            &&& a + l.texture_width * b < l.texture_width * l.texture_height
        }),
{
    let gw = font.glyph_width as int;
    let gh = font.glyph_height as int;
    let w = l.texture_width as int;
    let h = l.texture_height as int;
    let count = font.glyphs@.len() as int;
    let per_row = l.glyphs_per_row as int;
    let g = font.glyphs@[i];
    let ascent = font.ascent->0 as int;
    lemma_rows_fit(w, gw, gh, count);
    assert(pixels_in_cell(g, gw, gh, ascent));
    let x = cell_x(g, k);
    let y = cell_y(g, ascent, k);
    let tx = i % per_row;
    let ty = i / per_row;
    let rows = rows_needed(count, per_row);
    vstd::arithmetic::div_mod::lemma_mod_bound(i, per_row);
    vstd::arithmetic::div_mod::lemma_div_pos_is_pos(i, per_row);
    lemma_div_is_ordered(i + per_row, count + per_row - 1, per_row);
    vstd::arithmetic::div_mod::lemma_div_plus_one(i, per_row);
    assert(ty < rows);
    assert(gw * per_row <= w) by (nonlinear_arith)
        requires
            per_row == w / gw,
            gw > 0,
    ;
    assert(gh * rows <= h) by (nonlinear_arith)
        requires
            h / gh >= rows,
            gh > 0,
    ;
    let a = gw * tx + x;
    let b = gh * ty + y;
    assert(0 <= a < w) by (nonlinear_arith)
        requires
            a == gw * tx + x,
            0 <= x < gw,
            0 <= tx < per_row,
            gw * per_row <= w,
    ;
    assert(0 <= b < h) by (nonlinear_arith)
        requires
            b == gh * ty + y,
            0 <= y < gh,
            0 <= ty < rows,
            gh * rows <= h,
    ;
    assert(0 <= a + w * b < w * h) by (nonlinear_arith)
        requires
            0 <= a < w,
            0 <= b < h,
    ;
    assert(w * b <= w * (h - 1)) by (nonlinear_arith)
        requires
            0 <= b < h,
            0 <= w,
    ;
}

/// Checks `font` in the order that `font_error` states.
pub fn check_font(font: &BitmapFont) -> (r: Result<(), FontError>)
    ensures
        match r {
            Ok(_) => font_error(*font) is None,
            Err(e) => font_error(*font) == Some(e),
        },
{
    if font.ascent.is_none() {
        return Err(FontError::MissingAscent);
    }
    let ascent = font.ascent.unwrap() as i64;
    let n = font.glyphs.len();
    if n == 0 {
        return Err(FontError::NoGlyphs);
    }
    if !(0 < font.glyph_width && font.glyph_width < MAX_GLYPHS && 0 < font.glyph_height
        && font.glyph_height < MAX_GLYPHS) {
        return Err(FontError::BadCellSize);
    }
    if n > MAX_GLYPHS as usize {
        return Err(FontError::TooManyGlyphs);
    }
    let mut i: usize = 0;
    while i < n
        invariant
            n == font.glyphs@.len(),
            0 <= i <= n,
            font.ascent is Some,
            ascent as int == font.ascent->0 as int,
            0 < n <= MAX_GLYPHS,
            0 < font.glyph_width < MAX_GLYPHS,
            0 < font.glyph_height < MAX_GLYPHS,
            forall|a: int, b: int|
                0 <= a < i && 0 <= b < n && a != b ==> font.glyphs@[a].codepoint
                    != font.glyphs@[b].codepoint,
        decreases n - i,
    {
        let mut j: usize = 0;
        while j < n
            invariant
                n == font.glyphs@.len(),
                0 <= i < n,
                0 <= j <= n,
                font.ascent is Some,
                0 < n <= MAX_GLYPHS,
                0 < font.glyph_width < MAX_GLYPHS,
                0 < font.glyph_height < MAX_GLYPHS,

                forall|a: int, b: int|
                    0 <= a < i && 0 <= b < n && a != b ==> font.glyphs@[a].codepoint
                        != font.glyphs@[b].codepoint,
                forall|b: int|
                    0 <= b < j && b != i ==> font.glyphs@[i as int].codepoint
                        != font.glyphs@[b].codepoint,
            decreases n - j,
        {
            if j != i && font.glyphs[i].codepoint == font.glyphs[j].codepoint {
                return Err(FontError::DuplicateGlyph);
            }
            j = j + 1;
        }
        i = i + 1;
    }
    let gw = font.glyph_width as i64;
    let gh = font.glyph_height as i64;
    let mut i: usize = 0;
    while i < n
        invariant
            n == font.glyphs@.len(),
            0 <= i <= n,
            font.ascent is Some,
            ascent as int == font.ascent->0 as int,
            0 < n <= MAX_GLYPHS,
            0 < font.glyph_width < MAX_GLYPHS,
            0 < font.glyph_height < MAX_GLYPHS,
            codepoints_unique(font.glyphs@),
            gw == font.glyph_width,
            gh == font.glyph_height,
            forall|a: int|
                0 <= a < i ==> pixels_in_cell(
                    #[trigger] font.glyphs@[a],
                    gw as int,
                    gh as int,
                    ascent as int,
                ),
        decreases n - i,
    {
        let g = &font.glyphs[i];
        let mut k: usize = 0;
        while k < g.pixels.len()
            invariant
                n == font.glyphs@.len(),
                0 <= i < n,
                g == font.glyphs@[i as int],
                0 <= k <= g.pixels@.len(),
                font.ascent is Some,
                ascent as int == font.ascent->0 as int,
                0 < n <= MAX_GLYPHS,
                0 < font.glyph_width < MAX_GLYPHS,
                0 < font.glyph_height < MAX_GLYPHS,
                codepoints_unique(font.glyphs@),
                gw == font.glyph_width,
                gh == font.glyph_height,
                -0x8000_0000 <= ascent < 0x8000_0000,
                forall|c: int|
                    0 <= c < k ==> 0 <= #[trigger] cell_x(*g, c) < gw && 0 <= cell_y(
                        *g,
                        ascent as int,
                        c,
                    ) < gh,
            decreases g.pixels@.len() - k,
        {
            let (px, py) = g.pixels[k];
            let x = g.x as i64 + px as i64;
            let y = ascent - g.y as i64 - g.height as i64 + py as i64;
            assert(x == cell_x(*g, k as int) && y == cell_y(*g, ascent as int, k as int));
            if !(0 <= x && x < gw && 0 <= y && y < gh) {
                proof {
                    assert(!pixels_in_cell(font.glyphs@[i as int], gw as int, gh as int, ascent as int));
                }
                return Err(FontError::GlyphOutsideCell);
            }
            k = k + 1;
        }
        i = i + 1;
    }
    assert(forall|a: int|
        0 <= a < font.glyphs@.len() ==> pixels_in_cell(
            #[trigger] font.glyphs@[a],
            font.glyph_width as int,
            font.glyph_height as int,
            font.ascent->0 as int,
        ));
    Ok(())
}

impl GlyphAtlas {
    /// Packs every glyph of `font` into a texture: glyph `i` takes tile `i`,
    /// laid out row-major. Returns the atlas and the texture's bytes, a byte
    /// being full intensity where a covered glyph pixel lands and zero
    /// elsewhere.
    pub fn new(font: &BitmapFont) -> (r: Result<(GlyphAtlas, Vec<u8>), FontError>)
        ensures
            match r {
                Ok((atlas, pixels)) => {
                    &&& font_error(*font) is None
                    &&& atlas.wf()
                    &&& atlas.glyph_width == font.glyph_width
                    &&& atlas.glyph_height == font.glyph_height
                    &&& atlas.chars@ == font.glyphs@.map_values(|g: BitmapGlyph| g.codepoint)
                    &&& pixels@.len() == atlas.layout.texture_width * atlas.layout.texture_height
                    &&& forall|p: int|
                        0 <= p < pixels@.len() ==> #[trigger] pixels@[p] == if covered(
                            *font,
                            atlas.layout,
                            p,
                        ) {
                            255u8
                        } else {
                            0u8
                        }
                },
                Err(e) => font_error(*font) == Some(e) || (font_error(*font) is None && e
                    == FontError::TextureTooLarge && exists|l: AtlasLayout|
                    is_packing(l, font.glyph_width as int, font.glyph_height as int, font.glyphs@.len() as int)
                        && l.texture_width * l.texture_height > usize::MAX)
            },
    {
        match check_font(font) {
            Err(e) => { return Err(e); },
            Ok(_) => {},
        }
        let n = font.glyphs.len();
        let layout = atlas_layout(font.glyph_width, font.glyph_height, n as u32);
        let ascent = font.ascent.unwrap() as i64;
        let w = layout.texture_width as u64;
        let per_row = layout.glyphs_per_row as u64;
        let gw = font.glyph_width as u64;
        let gh = font.glyph_height as u64;
        proof {
            lemma_rows_fit(w as int, gw as int, gh as int, n as int);
            assert(w * layout.texture_height <= 0x200_0000 * 0x200_0000) by (nonlinear_arith)
                requires
                    w <= 0x200_0000,
                    layout.texture_height <= w,
            ;
        }
        let total64 = w * layout.texture_height as u64;
        if total64 as u128 > usize::MAX as u128 {
            return Err(FontError::TextureTooLarge);
        }
        let total = total64 as usize;
        let mut data: Vec<u8> = vec![0u8; total];
        let mut chars: Vec<char> = Vec::new();
        let mut i: usize = 0;
        while i < n
            invariant
                n == font.glyphs@.len(),
                font_error(*font) is None,
                is_packing(layout, gw as int, gh as int, n as int),
                font.ascent is Some,
                ascent as int == font.ascent->0 as int,
                w == layout.texture_width,
                per_row == layout.glyphs_per_row,
                per_row > 0,
                gw == font.glyph_width,
                gh == font.glyph_height,
                0 <= i <= n,
                data@.len() == total,
                total == layout.texture_width * layout.texture_height,
                chars@ == font.glyphs@.take(i as int).map_values(|g: BitmapGlyph| g.codepoint),
                forall|p: int|
                    0 <= p < total ==> #[trigger] data@[p] == if covered_before(*font, layout, i as int, 0, p) {
                        255u8
                    } else {
                        0u8
                    },
            decreases n - i,
        {
            let g = &font.glyphs[i];
            let tx = (i as u64) % per_row;
            let ty = (i as u64) / per_row;
            let mut k: usize = 0;
            proof {
                assert forall|p: int| 0 <= p < total implies #[trigger] covered_before(*font, layout, i as int, 0, p)
                    == covered_before(*font, layout, i as int - 1 + 1, 0, p) by {}
            }
            while k < g.pixels.len()
                invariant
                    n == font.glyphs@.len(),
                    font_error(*font) is None,
                    is_packing(layout, gw as int, gh as int, n as int),
                    font.ascent is Some,
                ascent as int == font.ascent->0 as int,
                    w == layout.texture_width,
                    per_row == layout.glyphs_per_row,
                    per_row > 0,
                    gw == font.glyph_width,
                    gh == font.glyph_height,
                    0 <= i < n,
                    g == font.glyphs@[i as int],
                    tx == (i as int) % (per_row as int),
                    ty == (i as int) / (per_row as int),
                    0 <= k <= g.pixels@.len(),
                    data@.len() == total,
                    total == layout.texture_width * layout.texture_height,
                    forall|p: int|
                        0 <= p < total ==> #[trigger] data@[p] == if covered_before(
                            *font,
                            layout,
                            i as int,
                            k as int,
                            p,
                        ) {
                            255u8
                        } else {
                            0u8
                        },
                decreases g.pixels@.len() - k,
            {
                let (px, py) = g.pixels[k];
                proof {
                    lemma_offset_in_texture(*font, layout, i as int, k as int);
                    assert(pixels_in_cell(
                        font.glyphs@[i as int],
                        font.glyph_width as int,
                        font.glyph_height as int,
                        font.ascent->0 as int,
                    ));
                    assert(0 <= cell_x(*g, k as int) < gw);
                }
                let x = (g.x as i64 + px as i64) as u64;
                let y = (ascent - g.y as i64 - g.height as i64 + py as i64) as u64;
                let ghost off = pixel_offset(layout, gw as int, gh as int, ascent as int, i as int, *g, k as int);
                proof {
                    assert(0 <= off < total);
                    assert(tile_coords(i as int, per_row as int) == (tx as int, ty as int));
                }
                let a = gw * tx + x;
                let b = gh * ty + y;
                let idx = (a + w * b) as usize;
                data.set(idx, 255u8);
                proof {
                    assert forall|p: int| 0 <= p < total implies #[trigger] data@[p] == if covered_before(
                        *font,
                        layout,
                        i as int,
                        k + 1,
                        p,
                    ) {
                        255u8
                    } else {
                        0u8
                    } by {
                        if p == off {
                            assert(covered_before(*font, layout, i as int, k + 1, p)) by {
                                assert(pixel_offset(layout, gw as int, gh as int, ascent as int, i as int, font.glyphs@[i as int], k as int) == p);
                            }
                        } else {
                            if covered_before(*font, layout, i as int, k + 1, p) {
                                let (i2, k2) = choose|i2: int, k2: int|
                                    0 <= i2 <= i && 0 <= k2 < font.glyphs@[i2].pixels@.len() && (i2 < i || k2 < k + 1) && #[trigger] pixel_offset(
                                        layout,
                                        gw as int,
                                        gh as int,
                                        ascent as int,
                                        i2,
                                        font.glyphs@[i2],
                                        k2,
                                    ) == p;
                                assert(covered_before(*font, layout, i as int, k as int, p));
                            }
                        }
                    }
                }
                k = k + 1;
            }
            proof {
                assert forall|p: int| 0 <= p < total implies covered_before(*font, layout, i as int, k as int, p)
                    == covered_before(*font, layout, i + 1, 0, p) by {
                    if covered_before(*font, layout, i + 1, 0, p) {
                        let (i2, k2) = choose|i2: int, k2: int|
                            0 <= i2 <= i + 1 && 0 <= k2 < font.glyphs@[i2].pixels@.len() && (i2 < i + 1 || k2 < 0) && #[trigger] pixel_offset(
                                layout,
                                gw as int,
                                gh as int,
                                ascent as int,
                                i2,
                                font.glyphs@[i2],
                                k2,
                            ) == p;
                        assert(covered_before(*font, layout, i as int, k as int, p));
                    }
                    if covered_before(*font, layout, i as int, k as int, p) {
                        let (i2, k2) = choose|i2: int, k2: int|
                            0 <= i2 <= i && 0 <= k2 < font.glyphs@[i2].pixels@.len() && (i2 < i || k2 < k) && #[trigger] pixel_offset(
                                layout,
                                gw as int,
                                gh as int,
                                ascent as int,
                                i2,
                                font.glyphs@[i2],
                                k2,
                            ) == p;
                        assert(covered_before(*font, layout, i + 1, 0, p));
                    }
                }
            }
            chars.push(g.codepoint);
            proof {
                assert(font.glyphs@.take(i + 1) == font.glyphs@.take(i as int).push(font.glyphs@[i as int]));
                assert(chars@ =~= font.glyphs@.take(i + 1).map_values(|g: BitmapGlyph| g.codepoint));
            }
            i = i + 1;
        }
        proof {
            assert(font.glyphs@.take(n as int) == font.glyphs@);
            assert forall|p: int| 0 <= p < total implies covered_before(*font, layout, n as int, 0, p) == covered(*font, layout, p) by {
                if covered(*font, layout, p) {
                    let (i2, k2) = choose|i2: int, k2: int|
                        0 <= i2 < font.glyphs@.len() && 0 <= k2 < font.glyphs@[i2].pixels@.len() && #[trigger] pixel_offset(
                            layout,
                            gw as int,
                            gh as int,
                            ascent as int,
                            i2,
                            font.glyphs@[i2],
                            k2,
                        ) == p;
                    assert(covered_before(*font, layout, n as int, 0, p));
                }
            }
        }
        let atlas = GlyphAtlas { layout, glyph_width: font.glyph_width, glyph_height: font.glyph_height, chars };
        Ok((atlas, data))
    }
}

} // verus!

use vstd::prelude::*;

verus! {

/// A 24-bit RGB colour.
#[derive(Clone, Copy, Debug)]
pub struct Color {
    pub r: u8,
    pub g: u8,
    pub b: u8,
}

impl Color {
    pub fn black() -> (c: Color)
        ensures
            c == (Color { r: 10, g: 2, b: 18 }),
    {
        Color { r: 10, g: 2, b: 18 }
    }

    pub fn white() -> (c: Color)
        ensures
            c == (Color { r: 255, g: 255, b: 255 }),
    {
        Color { r: 255, g: 255, b: 255 }
    }

    pub fn purple_aura() -> (c: Color)
        ensures
            c == (Color { r: 147, g: 51, b: 234 }),
    {
        Color { r: 147, g: 51, b: 234 }
    }

    pub fn dark_purple() -> (c: Color)
        ensures
            c == (Color { r: 58, g: 12, b: 92 }),
    {
        Color { r: 58, g: 12, b: 92 }
    }

    pub fn neon_violet() -> (c: Color)
        ensures
            c == (Color { r: 216, g: 180, b: 254 }),
    {
        Color { r: 216, g: 180, b: 254 }
    }

    pub fn dragon_eye() -> (c: Color)
        ensures
            c == (Color { r: 0, g: 255, b: 220 }),
    {
        Color { r: 0, g: 255, b: 220 }
    }
}

/// The framebuffer word for a colour: 0x00RRGGBB.
pub open spec fn pixel_value(c: Color) -> u32 {
    ((c.r as u32) << 16u32) | ((c.g as u32) << 8u32) | (c.b as u32)
}

/// A text/graphics console drawing into a row-major pixel buffer whose rows are
/// `pixels_per_scanline` words apart. An empty buffer means no framebuffer.
pub struct FramebufferConsole {
    pub pixels: Vec<u32>,
    pub width: usize,
    pub height: usize,
    pub pixels_per_scanline: usize,
    pub cursor_x: usize,
    pub cursor_y: usize,
}

/// Where the buffer stores pixel (`x`, `y`).
pub open spec fn pixel_offset(pps: int, x: int, y: int) -> int {
    y * pps + x
}

impl FramebufferConsole {
    /// Every visible pixel has its own word in the buffer.
    pub open spec fn wf(&self) -> bool {
        self.pixels@.len() == 0 || (self.width <= self.pixels_per_scanline && self.height
            * self.pixels_per_scanline <= self.pixels@.len())
    }

    pub fn new(pixels: Vec<u32>, width: usize, height: usize, pixels_per_scanline: usize) -> (c: Self)
        ensures
            c.pixels@ == pixels@,
            c.width == width,
            c.height == height,
            c.pixels_per_scanline == pixels_per_scanline,
            c.cursor_x == 0,
            c.cursor_y == 0,
    {
        Self { pixels, width, height, pixels_per_scanline, cursor_x: 0, cursor_y: 0 }
    }

    /// Draws one pixel; pixels off screen, or with no framebuffer, are ignored.
    pub fn draw_pixel(&mut self, x: usize, y: usize, color: Color)
        requires
            old(self).wf(),
        ensures
            final(self).wf(),
            final(self).width == old(self).width,
            final(self).height == old(self).height,
            final(self).pixels_per_scanline == old(self).pixels_per_scanline,
            final(self).cursor_x == old(self).cursor_x,
            final(self).cursor_y == old(self).cursor_y,
            final(self).pixels@ == if x < old(self).width && y < old(self).height && old(
                self,
            ).pixels@.len() > 0 {
                old(self).pixels@.update(
                    pixel_offset(old(self).pixels_per_scanline as int, x as int, y as int),
                    pixel_value(color),
                )
            } else {
                old(self).pixels@
            },
    {
        if x >= self.width || y >= self.height || self.pixels.len() == 0 {
            return;
        }
        let pixel_val = ((color.r as u32) << 16) | ((color.g as u32) << 8) | (color.b as u32);
        proof {
            lemma_offset_in_buffer(
                self.pixels_per_scanline as int,
                self.width as int,
                self.height as int,
                x as int,
                y as int,
            );
        }
        let offset = y * self.pixels_per_scanline + x;
        self.pixels.set(offset, pixel_val);
    }
}

/// A visible pixel's offset lies before the end of the visible rows.
proof fn lemma_offset_in_buffer(pps: int, w: int, h: int, x: int, y: int)
    requires
        0 <= x < w <= pps,
        0 <= y < h,
    ensures
        0 <= y * pps + x < h * pps,
{
    assert(0 <= y * pps + x < h * pps) by (nonlinear_arith)
        requires
            0 <= x < w <= pps,
            0 <= y < h,
    ;
}

/// Row `row` of the 16x16 dragon sprite; bit 15 is the leftmost column.
pub open spec fn dragon_row(row: int) -> u16 {
    if row == 0 {
        0b0000011000110000
    } else if row == 1 {
        0b0000111101111000
    } else if row == 2 {
        0b0001111111111100
    } else if row == 3 {
        0b0011011111110110
    } else if row == 4 {
        0b0111111111111110
    } else if row == 5 {
        0b1111111111111111
    } else if row == 6 {
        0b1111110000111111
    } else if row == 7 {
        0b1111000000001111
    } else if row == 8 {
        0b0111000000001110
    } else if row == 9 {
        0b0011100000011100
    } else if row == 10 {
        0b0001110000111000
    } else if row == 11 {
        0b0000111001110000
    } else if row == 12 {
        0b0000011111100000
    } else if row == 13 {
        0b0000001111000000
    } else if row == 14 {
        0b0000000110000000
    } else {
        0
    }
}

/// The sprite cell at (`row`, `col`) is part of the dragon.
pub open spec fn sprite_bit(row: int, col: int) -> bool {
    dragon_row(row) & (1u16 << ((15 - col) as u16)) != 0
}

/// The colour of sprite cell (`row`, `col`): cyan eyes, a violet head, a purple body.
pub open spec fn dragon_color(row: int, col: int) -> Color {
    if row == 3 && (col == 4 || col == 11) {
        Color { r: 0, g: 255, b: 220 }
    } else if row < 4 {
        Color { r: 216, g: 180, b: 254 }
    } else {
        Color { r: 147, g: 51, b: 234 }
    }
}

/// Where the dragon starts along an axis of `extent` pixels: 20 pixels before the
/// middle on a large screen, 10 pixels from the edge otherwise.
pub open spec fn dragon_origin(extent: int, threshold: int) -> int {
    if extent > threshold {
        extent / 2 - 20
    } else {
        10
    }
}

/// The dragon's colour at pixel (`x`, `y`) when drawn from (`ox`, `oy`), if it covers it.
pub open spec fn dragon_pixel(ox: int, oy: int, x: int, y: int) -> Option<Color> {
    let dx = x - ox;
    let dy = y - oy;
    if 0 <= dx < 64 && 0 <= dy < 64 && sprite_bit(dy / 4, dx / 4) {
        Some(dragon_color(dy / 4, dx / 4))
    } else {
        None
    }
}

/// The buffer `old` with the dragon drawn from (`ox`, `oy`) over its visible pixels.
pub open spec fn with_dragon(old: Seq<u32>, w: int, h: int, pps: int, ox: int, oy: int) -> Seq<u32> {
    Seq::new(
        old.len(),
        |o: int|
            {
                let x = o % pps;
                let y = o / pps;
                if x < w && y < h && dragon_pixel(ox, oy, x, y) is Some {
                    pixel_value(dragon_pixel(ox, oy, x, y)->Some_0)
                } else {
                    old[o]
                }
            },
    )
}

/// Position of pixel (`x`, `y`) in the order the dragon is drawn: cell by cell, row
/// by row, and within a cell line by line.
spec fn draw_order(ox: int, oy: int, x: int, y: int) -> int {
    let dx = x - ox;
    let dy = y - oy;
    (dy / 4) * 256 + (dx / 4) * 16 + (dy % 4) * 4 + dx % 4
}

/// The buffer once the dragon pixels before position `limit` of the drawing order are drawn.
spec fn partly_drawn(old: Seq<u32>, w: int, h: int, pps: int, ox: int, oy: int, limit: int) -> Seq<
    u32,
> {
    Seq::new(
        old.len(),
        |o: int|
            {
                let x = o % pps;
                let y = o / pps;
                if x < w && y < h && dragon_pixel(ox, oy, x, y) is Some && draw_order(ox, oy, x, y)
                    < limit {
                    pixel_value(dragon_pixel(ox, oy, x, y)->Some_0)
                } else {
                    old[o]
                }
            },
    )
}

proof fn lemma_partly_drawn_ends(old: Seq<u32>, w: int, h: int, pps: int, ox: int, oy: int)
    ensures
        partly_drawn(old, w, h, pps, ox, oy, 0) == old,
        partly_drawn(old, w, h, pps, ox, oy, 4096) == with_dragon(old, w, h, pps, ox, oy),
{
    assert(partly_drawn(old, w, h, pps, ox, oy, 0) =~= old);
    assert(partly_drawn(old, w, h, pps, ox, oy, 4096) =~= with_dragon(old, w, h, pps, ox, oy));
}

/// Drawing pixel `sx`, `sy` of sprite cell (`row`, `col`) advances the drawing by one position.
proof fn lemma_partly_drawn_step(
    old: Seq<u32>,
    w: int,
    h: int,
    pps: int,
    ox: int,
    oy: int,
    row: int,
    col: int,
    sy: int,
    sx: int,
)
    requires
        0 <= row < 16,
        0 <= col < 16,
        0 <= sy < 4,
        0 <= sx < 4,
        0 <= ox,
        0 <= oy,
        0 <= w,
        0 <= h,
        old.len() == 0 || (w <= pps && h * pps <= old.len()),
    ensures
        ({
            let k = row * 256 + col * 16 + sy * 4 + sx;
            let px = ox + col * 4 + sx;
            let py = oy + row * 4 + sy;
            let before = partly_drawn(old, w, h, pps, ox, oy, k);
            partly_drawn(old, w, h, pps, ox, oy, k + 1) == if sprite_bit(row, col) && px < w && py
                < h && old.len() > 0 {
                before.update(pixel_offset(pps, px, py), pixel_value(dragon_color(row, col)))
            } else {
                before
            }
        }),
{
    let k = row * 256 + col * 16 + sy * 4 + sx;
    let px = ox + col * 4 + sx;
    let py = oy + row * 4 + sy;
    let before = partly_drawn(old, w, h, pps, ox, oy, k);
    let after = partly_drawn(old, w, h, pps, ox, oy, k + 1);
    let drawn = sprite_bit(row, col) && px < w && py < h && old.len() > 0;
    if drawn {
        lemma_offset_in_buffer(pps, w, h, px, py);
        vstd::arithmetic::div_mod::lemma_fundamental_div_mod_converse(py * pps + px, pps, py, px);
        assert(((px - ox) / 4) == col && ((py - oy) / 4) == row);
        assert(dragon_pixel(ox, oy, px, py) == Some(dragon_color(row, col)));
    }
    let target = if drawn {
        before.update(pixel_offset(pps, px, py), pixel_value(dragon_color(row, col)))
    } else {
        before
    };
    assert forall|o: int| 0 <= o < old.len() implies after[o] == target[o] by {
        let x = o % pps;
        let y = o / pps;
        if x < w && y < h && dragon_pixel(ox, oy, x, y) is Some {
            let dx = x - ox;
            let dy = y - oy;
            if draw_order(ox, oy, x, y) == k {
                assert(dy / 4 == row && dx / 4 == col && dy % 4 == sy && dx % 4 == sx);
                assert(x == px && y == py);
                assert(pps > 0);
                vstd::arithmetic::div_mod::lemma_fundamental_div_mod(o, pps);
                vstd::arithmetic::mul::lemma_mul_is_commutative(pps, y);
                assert(o == py * pps + px);
            } else if drawn && o == pixel_offset(pps, px, py) {
                assert(x == px && y == py);
                assert(false);
            }
        } else if drawn && o == pixel_offset(pps, px, py) {
            assert(x == px && y == py);
        }
    }
    assert(after =~= target);
}

impl FramebufferConsole {
    /// Draws the 16x16 dragon emblem, each cell a 4x4 block, from the origin
    /// `dragon_origin(width, 120)`, `dragon_origin(height, 100)`.
    pub fn render_purple_dragon(&mut self)
        requires
            old(self).wf(),
        ensures
            final(self).wf(),
            final(self).width == old(self).width,
            final(self).height == old(self).height,
            final(self).pixels_per_scanline == old(self).pixels_per_scanline,
            final(self).cursor_x == old(self).cursor_x,
            final(self).cursor_y == old(self).cursor_y,
            final(self).pixels@ == with_dragon(
                old(self).pixels@,
                old(self).width as int,
                old(self).height as int,
                old(self).pixels_per_scanline as int,
                dragon_origin(old(self).width as int, 120),
                dragon_origin(old(self).height as int, 100),
            ),
    {
        let start_x = if self.width > 120 {
            self.width / 2 - 20
        } else {
            10
        };
        let start_y = if self.height > 100 {
            self.height / 2 - 20
        } else {
            10
        };

        let dragon_sprite: [u16; 16] = [
            0b0000011000110000,
            0b0000111101111000,
            0b0001111111111100,
            0b0011011111110110,
            0b0111111111111110,
            0b1111111111111111,
            0b1111110000111111,
            0b1111000000001111,
            0b0111000000001110,
            0b0011100000011100,
            0b0001110000111000,
            0b0000111001110000,
            0b0000011111100000,
            0b0000001111000000,
            0b0000000110000000,
            0b0000000000000000,
        ];

        let scale: usize = 4;
        let ghost old_px = self.pixels@;
        let ghost w = self.width as int;
        let ghost h = self.height as int;
        let ghost pps = self.pixels_per_scanline as int;
        let ghost ox = start_x as int;
        let ghost oy = start_y as int;
        proof {
            lemma_partly_drawn_ends(old_px, w, h, pps, ox, oy);
        }

        let mut row: usize = 0;
        while row < 16
            invariant
                0 <= row <= 16,
                self.wf(),
                self.width == w,
                self.height == h,
                self.pixels_per_scanline == pps,
                self.cursor_x == old(self).cursor_x,
                self.cursor_y == old(self).cursor_y,
                old_px == old(self).pixels@,
                w == old(self).width,
                h == old(self).height,
                ox == dragon_origin(w, 120),
                oy == dragon_origin(h, 100),
                ox == start_x,
                oy == start_y,
                start_x <= usize::MAX / 2,
                start_y <= usize::MAX / 2,
                scale == 4,
                forall|r: int| 0 <= r < 16 ==> #[trigger] dragon_sprite@[r] == dragon_row(r),
                self.pixels@ == partly_drawn(old_px, w, h, pps, ox, oy, row * 256),
            decreases 16 - row,
        {
            let line = dragon_sprite[row];
            let mut col: usize = 0;
            while col < 16
                invariant
                    0 <= row < 16,
                    0 <= col <= 16,
                    self.wf(),
                    self.width == w,
                    self.height == h,
                    self.pixels_per_scanline == pps,
                    self.cursor_x == old(self).cursor_x,
                    self.cursor_y == old(self).cursor_y,
                    ox == start_x,
                    oy == start_y,
                    start_x <= usize::MAX / 2,
                    start_y <= usize::MAX / 2,
                    scale == 4,
                    line == dragon_row(row as int),
                    self.pixels@ == partly_drawn(old_px, w, h, pps, ox, oy, row * 256 + col * 16),
                decreases 16 - col,
            {
                if (line & (1u16 << ((15 - col) as u16))) != 0 {
                    let color = if row == 3 && (col == 4 || col == 11) {
                        Color::dragon_eye()
                    } else if row < 4 {
                        Color::neon_violet()
                    } else {
                        Color::purple_aura()
                    };
                    let mut sy: usize = 0;
                    while sy < scale
                        invariant
                            0 <= row < 16,
                            0 <= col < 16,
                            0 <= sy <= 4,
                            self.wf(),
                            self.width == w,
                            self.height == h,
                            self.pixels_per_scanline == pps,
                            self.cursor_x == old(self).cursor_x,
                            self.cursor_y == old(self).cursor_y,
                            ox == start_x,
                            oy == start_y,
                            start_x <= usize::MAX / 2,
                            start_y <= usize::MAX / 2,
                            scale == 4,
                            sprite_bit(row as int, col as int),
                            color == dragon_color(row as int, col as int),
                            self.pixels@ == partly_drawn(
                                old_px,
                                w,
                                h,
                                pps,
                                ox,
                                oy,
                                row * 256 + col * 16 + sy * 4,
                            ),
                        decreases 4 - sy,
                    {
                        let mut sx: usize = 0;
                        while sx < scale
                            invariant
                                0 <= row < 16,
                                0 <= col < 16,
                                0 <= sy < 4,
                                0 <= sx <= 4,
                                self.wf(),
                                self.width == w,
                                self.height == h,
                                self.pixels_per_scanline == pps,
                                self.cursor_x == old(self).cursor_x,
                                self.cursor_y == old(self).cursor_y,
                                ox == start_x,
                                oy == start_y,
                                start_x <= usize::MAX / 2,
                                start_y <= usize::MAX / 2,
                                scale == 4,
                                sprite_bit(row as int, col as int),
                                color == dragon_color(row as int, col as int),
                                self.pixels@ == partly_drawn(
                                    old_px,
                                    w,
                                    h,
                                    pps,
                                    ox,
                                    oy,
                                    row * 256 + col * 16 + sy * 4 + sx,
                                ),
                            decreases 4 - sx,
                        {
                            proof {
                                lemma_partly_drawn_step(
                                    old_px,
                                    w,
                                    h,
                                    pps,
                                    ox,
                                    oy,
                                    row as int,
                                    col as int,
                                    sy as int,
                                    sx as int,
                                );
                            }
                            self.draw_pixel(
                                start_x + col * scale + sx,
                                start_y + row * scale + sy,
                                color,
                            );
                            sx += 1;
                        }
                        sy += 1;
                    }
                } else {
                    proof {
                        lemma_blank_cell(old_px, w, h, pps, ox, oy, row as int, col as int, 16);
                    }
                }
                col += 1;
            }
            row += 1;
        }
    }
}

/// A sprite cell that is not part of the dragon draws nothing.
proof fn lemma_blank_cell(
    old: Seq<u32>,
    w: int,
    h: int,
    pps: int,
    ox: int,
    oy: int,
    row: int,
    col: int,
    j: int,
)
    requires
        0 <= row < 16,
        0 <= col < 16,
        0 <= j <= 16,
        !sprite_bit(row, col),
    ensures
        partly_drawn(old, w, h, pps, ox, oy, row * 256 + col * 16 + j) == partly_drawn(
            old,
            w,
            h,
            pps,
            ox,
            oy,
            row * 256 + col * 16,
        ),
{
    let base = row * 256 + col * 16;
    let a = partly_drawn(old, w, h, pps, ox, oy, base + j);
    let b = partly_drawn(old, w, h, pps, ox, oy, base);
    assert forall|o: int| 0 <= o < old.len() implies a[o] == b[o] by {
        let x = o % pps;
        let y = o / pps;
        if x < w && y < h && dragon_pixel(ox, oy, x, y) is Some {
            let dx = x - ox;
            let dy = y - oy;
            let ord = draw_order(ox, oy, x, y);
            if base <= ord < base + j {
                assert(dy / 4 == row && dx / 4 == col);
                assert(false);
            }
        }
    }
    assert(a =~= b);
}

/// The emblem's colours: where the dragon covers a visible pixel, a cell of sprite
/// rows 0 to 3 is neon violet 0xD8B4FE except the eye cells (3, 4) and (3, 11), which
/// are cyan 0x00FFDC, and every cell of rows 4 to 15 is purple 0x9333EA; a visible
/// pixel the dragon does not cover keeps its value.
pub proof fn law_dragon_colours(
    old: Seq<u32>,
    w: int,
    h: int,
    pps: int,
    ox: int,
    oy: int,
    x: int,
    y: int,
)
    requires
        0 <= x < w <= pps,
        0 <= y < h,
        h * pps <= old.len(),
    ensures
        ({
            let o = pixel_offset(pps, x, y);
            let drawn = with_dragon(old, w, h, pps, ox, oy);
            let row = (y - oy) / 4;
            let col = (x - ox) / 4;
            &&& 0 <= o < old.len()
            &&& dragon_pixel(ox, oy, x, y) is None ==> drawn[o] == old[o]
            &&& dragon_pixel(ox, oy, x, y) is Some ==> {
                &&& row < 4 && !(row == 3 && (col == 4 || col == 11)) ==> drawn[o] == 0xD8B4FE
                &&& row == 3 && (col == 4 || col == 11) ==> drawn[o] == 0x00FFDC
                &&& row >= 4 ==> drawn[o] == 0x9333EA
            }
        }),
{
    let o = pixel_offset(pps, x, y);
    lemma_offset_in_buffer(pps, w, h, x, y);
    vstd::arithmetic::div_mod::lemma_fundamental_div_mod_converse(y * pps + x, pps, y, x);
    assert(o % pps == x && o / pps == y);
    assert(((216u8 as u32) << 16u32) | ((180u8 as u32) << 8u32) | (254u8 as u32) == 0xD8B4FEu32)
        by (bit_vector);
    assert(((0u8 as u32) << 16u32) | ((255u8 as u32) << 8u32) | (220u8 as u32) == 0x00FFDCu32)
        by (bit_vector);
    assert(((147u8 as u32) << 16u32) | ((51u8 as u32) << 8u32) | (234u8 as u32) == 0x9333EAu32)
        by (bit_vector);
}

} // verus!

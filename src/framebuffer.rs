//! An 8-bit grayscale canvas the size of the panel, with saturating paint
//! operators, clipped rectangles and glyph coverage drawing.
use vstd::prelude::*;

verus! {

pub const WIDTH: i32 = 960;

pub const HEIGHT: i32 = 540;

/// Number of pixels of a framebuffer.
pub const PIXELS: usize = 518400;

pub const WHITE: u8 = 255;

pub const BLACK: u8 = 0;

/// How a paint operation combines an intensity with the pixel under it.
#[derive(Clone, Copy, Debug, PartialEq, Eq, Structural)]
pub enum Paint {
    /// Subtract the intensity, stopping at black.
    Darken,
    /// Add the intensity, stopping at white.
    Lighten,
}

/// An axis-aligned rectangle: its left and top edges, width and height.
#[derive(Clone, Copy, Debug, PartialEq, Eq, Structural)]
pub struct Rect {
    pub x: i32,
    pub y: i32,
    pub w: i32,
    pub h: i32,
}

/// The coverage of one laid-out glyph: intensities row by row over its box,
/// whose top-left corner is given relative to the text's origin.
#[derive(Debug)]
pub struct GlyphBitmap {
    pub left: i32,
    pub top: i32,
    pub width: i32,
    pub coverage: Vec<u8>,
}

/// A row-major grid of `WIDTH × HEIGHT` intensities, 255 white and 0 black.
pub struct Framebuffer {
    data: Vec<u8>,
}

pub open spec fn is_inside(x: int, y: int) -> bool {
    0 <= x < WIDTH && 0 <= y < HEIGHT
}

pub open spec fn pixel_index(x: int, y: int) -> int {
    y * WIDTH + x
}

/// A pixel's intensity after one paint operation.
pub open spec fn painted(paint: Paint, before: u8, val: u8) -> u8 {
    match paint {
        Paint::Darken => if before >= val {
            (before - val) as u8
        } else {
            0
        },
        Paint::Lighten => if before + val <= 255 {
            (before + val) as u8
        } else {
            255
        },
    }
}

/// A canvas after painting one pixel; a pixel outside the canvas leaves it as it is.
pub open spec fn painted_at(fb: Seq<u8>, paint: Paint, x: int, y: int, val: u8) -> Seq<u8> {
    if is_inside(x, y) {
        fb.update(pixel_index(x, y), painted(paint, fb[pixel_index(x, y)], val))
    } else {
        fb
    }
}

pub open spec fn blank() -> Seq<u8> {
    Seq::new(PIXELS as nat, |i: int| WHITE)
}

pub open spec fn in_rect(r: Rect, x: int, y: int) -> bool {
    r.x <= x < r.x + r.w && r.y <= y < r.y + r.h
}

/// A canvas after painting a rectangle with full intensity.
pub open spec fn rect_painted(fb: Seq<u8>, paint: Paint, r: Rect) -> Seq<u8> {
    Seq::new(
        fb.len(),
        |i: int|
            if in_rect(r, i % WIDTH as int, i / WIDTH as int) {
                painted(paint, fb[i], 255)
            } else {
                fb[i]
            },
    )
}

/// A canvas after painting the first `k` coverage samples of a glyph whose box
/// starts at `(ox + g.left, oy + g.top)`.
pub open spec fn glyph_painted(
    fb: Seq<u8>,
    paint: Paint,
    ox: int,
    oy: int,
    g: GlyphBitmap,
    k: nat,
) -> Seq<u8>
    decreases k,
{
    if k == 0 {
        fb
    } else {
        let j = k - 1;
        painted_at(
            glyph_painted(fb, paint, ox, oy, g, j as nat),
            paint,
            ox + g.left + j % (g.width as int),
            oy + g.top + j / (g.width as int),
            g.coverage@[j],
        )
    }
}

/// A canvas after painting the first `n` glyphs, each in full.
pub open spec fn glyphs_painted(
    fb: Seq<u8>,
    paint: Paint,
    ox: int,
    oy: int,
    gs: Seq<GlyphBitmap>,
    n: nat,
) -> Seq<u8>
    decreases n,
{
    if n == 0 {
        fb
    } else {
        let g = gs[n - 1];
        glyph_painted(
            glyphs_painted(fb, paint, ox, oy, gs, (n - 1) as nat),
            paint,
            ox,
            oy,
            g,
            g.coverage@.len(),
        )
    }
}

/// Glyph geometry that keeps every pixel coordinate within `i32`.
pub open spec fn glyph_ok(g: GlyphBitmap) -> bool {
    &&& 0 < g.width <= 0x10000
    &&& g.coverage@.len() <= 0x100_0000
    &&& -0x100_0000 <= g.left <= 0x100_0000
    &&& -0x100_0000 <= g.top <= 0x100_0000
}

/// The origin that centers a run of text horizontally on `x`, given the left
/// edge of its first glyph and the right edge of its last, both relative to
/// the run's own origin.
pub open spec fn centered_origin(x: int, min_x: int, max_x: int) -> int {
    x - half_toward_zero(max_x - min_x) - min_x
}

/// Half of `w`, rounded toward zero.
pub open spec fn half_toward_zero(w: int) -> int {
    if w >= 0 {
        w / 2
    } else {
        -((-w) / 2)
    }
}

impl View for Framebuffer {
    type V = Seq<u8>;

    closed spec fn view(&self) -> Seq<u8> {
        self.data@
    }
}

impl Framebuffer {
    /// A canvas holds exactly one intensity per pixel.
    pub open spec fn wf(&self) -> bool {
        self@.len() == PIXELS
    }

    /// A white canvas.
    pub fn new() -> (r: Framebuffer)
        ensures
            r@ == blank(),
    {
        let data = vec![WHITE; PIXELS];
        proof {
            assert(data@ =~= blank());
        }
        Framebuffer { data }
    }

    /// Paint the whole canvas white.
    pub fn clear(&mut self)
        requires
            old(self).wf(),
        ensures
            final(self)@ == blank(),
    {
        let mut i: usize = 0;
        while i < PIXELS
            invariant
                self.data@.len() == PIXELS,
                forall|k: int| 0 <= k < i ==> self.data@[k] == WHITE,
            decreases PIXELS - i,
        {
            self.data.set(i, WHITE);
            i = i + 1;
        }
        proof {
            assert(self.data@ =~= blank());
        }
    }

    pub fn inside(&self, x: i32, y: i32) -> (r: bool)
        ensures
            r == is_inside(x as int, y as int),
    {
        0 <= x && x < WIDTH && 0 <= y && y < HEIGHT
    }

    /// The intensity at a pixel of the canvas.
    pub fn get(&self, x: i32, y: i32) -> (r: u8)
        requires
            self.wf(),
            is_inside(x as int, y as int),
        ensures
            r == self@[pixel_index(x as int, y as int)],
    {
        proof {
            lemma_index_in_range(x as int, y as int);
        }
        self.data[(y as usize) * (WIDTH as usize) + (x as usize)]
    }

    /// Store an intensity at a pixel of the canvas.
    pub fn set(&mut self, x: i32, y: i32, val: u8)
        requires
            old(self).wf(),
            is_inside(x as int, y as int),
        ensures
            final(self)@ == old(self)@.update(pixel_index(x as int, y as int), val),
    {
        proof {
            lemma_index_in_range(x as int, y as int);
        }
        self.data.set((y as usize) * (WIDTH as usize) + (x as usize), val);
    }

    /// Combine `val` with one pixel; a pixel outside the canvas is ignored.
    pub fn paint(&mut self, paint: Paint, x: i32, y: i32, val: u8)
        requires
            old(self).wf(),
        ensures
            final(self)@ == painted_at(old(self)@, paint, x as int, y as int, val),
    {
        if self.inside(x, y) {
            let before = self.get(x, y);
            let after = match paint {
                Paint::Darken => if before >= val {
                    before - val
                } else {
                    0
                },
                Paint::Lighten => if before as u16 + val as u16 <= 255 {
                    before + val
                } else {
                    255
                },
            };
            self.set(x, y, after);
        }
    }

    /// Paint a rectangle with full intensity; the part outside the canvas is clipped.
    pub fn rect(&mut self, paint: Paint, rect: Rect)
        requires
            old(self).wf(),
            i32::MIN <= rect.x + rect.w <= i32::MAX,
            i32::MIN <= rect.y + rect.h <= i32::MAX,
        ensures
            final(self)@ == rect_painted(old(self)@, paint, rect),
    {
        let ghost before = self@;
        let x0 = if rect.x < 0 {
            0
        } else {
            rect.x
        };
        let x1 = if rect.x + rect.w > WIDTH {
            WIDTH
        } else {
            rect.x + rect.w
        };
        let y0 = if rect.y < 0 {
            0
        } else {
            rect.y
        };
        let y1 = if rect.y + rect.h > HEIGHT {
            HEIGHT
        } else {
            rect.y + rect.h
        };
        let mut py = y0;
        proof {
            assert forall|i: int| 0 <= i < PIXELS implies self@[i] == rect_progress(
                before,
                paint,
                rect,
                py as int,
                0,
            )[i] by {
                lemma_pixel_coords(i);
            }
            assert(self@ =~= rect_progress(before, paint, rect, py as int, 0));
        }
        while py < y1
            invariant
                0 <= y0 <= py,
                y1 <= HEIGHT,
                0 <= x0,
                x1 <= WIDTH,
                x0 >= rect.x,
                x0 == rect.x || x0 == 0,
                x1 <= rect.x + rect.w,
                y1 <= rect.y + rect.h,
                x1 == rect.x + rect.w || x1 == WIDTH,
                y1 == rect.y + rect.h || y1 == HEIGHT,
                y0 >= rect.y,
                0 <= y0,
                before.len() == PIXELS,
                self@ == rect_progress(before, paint, rect, py as int, 0),
            decreases y1 - py,
        {
            let mut px = x0;
            proof {
                assert forall|i: int| 0 <= i < PIXELS implies self@[i] == rect_progress(
                    before,
                    paint,
                    rect,
                    py as int,
                    px as int,
                )[i] by {
                    lemma_pixel_coords(i);
                }
                assert(self@ =~= rect_progress(before, paint, rect, py as int, px as int));
            }
            while px < x1
                invariant
                    0 <= y0 <= py < y1 <= HEIGHT,
                    0 <= x0 <= px,
                    x1 <= WIDTH,
                    x0 >= rect.x,
                    x0 == rect.x || x0 == 0,
                    x1 <= rect.x + rect.w,
                    y1 <= rect.y + rect.h,
                x0 == rect.x || x0 == 0,
                x1 <= rect.x + rect.w,
                y1 <= rect.y + rect.h,
                    x1 == rect.x + rect.w || x1 == WIDTH,
                    y1 == rect.y + rect.h || y1 == HEIGHT,
                    y0 >= rect.y,
                0 <= y0,
                    before.len() == PIXELS,
                    self@ == rect_progress(before, paint, rect, py as int, px as int),
                decreases x1 - px,
            {
                let ghost prev = self@;
                self.paint(paint, px, py, 255);
                proof {
                    let k = pixel_index(px as int, py as int);
                    assert(k % WIDTH as int == px && k / WIDTH as int == py) by (nonlinear_arith)
                        requires
                            k == py * 960 + px,
                            0 <= px < 960,
                            0 <= py,
                    ;
                    assert forall|i: int| 0 <= i < PIXELS implies self@[i] == rect_progress(
                        before,
                        paint,
                        rect,
                        py as int,
                        px + 1,
                    )[i] by {
                        lemma_pixel_coords(i);
                        lemma_pixel_coords(k);
                    }
                    assert(self@ =~= rect_progress(before, paint, rect, py as int, px + 1));
                }
                px = px + 1;
            }
            proof {
                assert forall|i: int| 0 <= i < PIXELS implies self@[i] == rect_progress(
                    before,
                    paint,
                    rect,
                    py + 1,
                    0,
                )[i] by {
                    lemma_pixel_coords(i);
                }
                assert(self@ =~= rect_progress(before, paint, rect, py + 1, 0));
            }
            py = py + 1;
        }
        proof {
            assert forall|i: int| 0 <= i < PIXELS implies self@[i] == rect_painted(
                before,
                paint,
                rect,
            )[i] by {
                lemma_pixel_coords(i);
            }
            assert(self@ =~= rect_painted(before, paint, rect));
        }
    }
}

impl Framebuffer {
    /// Paint the coverage of a run of glyphs whose boxes are placed relative
    /// to the origin `(ox, oy)`, glyph after glyph, each row by row.
    pub fn draw_glyphs(&mut self, paint: Paint, ox: i32, oy: i32, glyphs: &Vec<GlyphBitmap>)
        requires
            old(self).wf(),
            forall|i: int| 0 <= i < glyphs@.len() ==> glyph_ok(#[trigger] glyphs@[i]),
            -0x2000_0000 <= ox <= 0x2000_0000,
            -0x2000_0000 <= oy <= 0x2000_0000,
        ensures
            final(self).wf(),
            final(self)@ == glyphs_painted(
                old(self)@,
                paint,
                ox as int,
                oy as int,
                glyphs@,
                glyphs@.len(),
            ),
    {
        let ghost start = self@;
        let mut n: usize = 0;
        while n < glyphs.len()
            invariant
                0 <= n <= glyphs@.len(),
                self.wf(),
                forall|i: int| 0 <= i < glyphs@.len() ==> glyph_ok(#[trigger] glyphs@[i]),
                -0x2000_0000 <= ox <= 0x2000_0000,
                -0x2000_0000 <= oy <= 0x2000_0000,
                self@ == glyphs_painted(start, paint, ox as int, oy as int, glyphs@, n as nat),
            decreases glyphs@.len() - n,
        {
            let g = &glyphs[n];
            assert(glyph_ok(glyphs@[n as int]));
            let ghost before = self@;
            let mut j: usize = 0;
            while j < g.coverage.len()
                invariant
                    0 <= j <= g.coverage@.len(),
                    glyph_ok(*g),
                    self.wf(),
                    -0x2000_0000 <= ox <= 0x2000_0000,
                    -0x2000_0000 <= oy <= 0x2000_0000,
                    self@ == glyph_painted(before, paint, ox as int, oy as int, *g, j as nat),
                decreases g.coverage@.len() - j,
            {
                let w = g.width as usize;
                let col = (j % w) as i32;
                let row = (j / w) as i32;
                assert(j / w <= j) by (nonlinear_arith)
                    requires
                        w > 0,
                ;
                self.paint(paint, ox + g.left + col, oy + g.top + row, g.coverage[j]);
                j = j + 1;
            }
            n = n + 1;
        }
    }

    /// Draw a run of glyphs centered horizontally on `x`, with the run's
    /// baseline at `y`. The glyphs' boxes are relative to the run's origin; the
    /// run spans from the left edge of its first box to the right edge of its last.
    pub fn text_centered(&mut self, paint: Paint, x: i32, y: i32, glyphs: &Vec<GlyphBitmap>)
        requires
            old(self).wf(),
            glyphs@.len() > 0,
            forall|i: int| 0 <= i < glyphs@.len() ==> glyph_ok(#[trigger] glyphs@[i]),
            -0x1000_0000 <= x <= 0x1000_0000,
            -0x1000_0000 <= y <= 0x1000_0000,
        ensures
            final(self).wf(),
            final(self)@ == glyphs_painted(
                old(self)@,
                paint,
                centered_origin(
                    x as int,
                    glyphs@[0].left as int,
                    glyphs@.last().left + glyphs@.last().width,
                ),
                y as int,
                glyphs@,
                glyphs@.len(),
            ),
    {
        let first = &glyphs[0];
        let last = &glyphs[glyphs.len() - 1];
        assert(glyph_ok(glyphs@[0]));
        assert(glyph_ok(glyphs@.last()));
        let min_x = first.left;
        let max_x = last.left + last.width;
        let width = max_x - min_x;
        let half = if width >= 0 {
            width / 2
        } else {
            -((-width) / 2)
        };
        let ox = x - half - min_x;
        self.draw_glyphs(paint, ox, y, glyphs);
    }
}

/// Painting saturates: darkening never raises a pixel and stops at black,
/// lightening never lowers it and stops at white, whatever the intensity.
pub proof fn lemma_paint_saturates(paint: Paint, before: u8, val: u8)
    ensures
        paint == Paint::Darken ==> painted(paint, before, val) <= before && painted(
            paint,
            before,
            val,
        ) == if before >= val {
            before - val
        } else {
            0
        },
        paint == Paint::Lighten ==> painted(paint, before, val) >= before && painted(
            paint,
            before,
            val,
        ) == if before + val <= 255 {
            before + val
        } else {
            255
        },
        before == WHITE && paint == Paint::Darken ==> painted(paint, before, val) == 255 - val,
        before == BLACK && paint == Paint::Lighten ==> painted(paint, before, val) == val,
{
}

/// Painting pixels or rectangles that lie wholly outside the canvas changes nothing.
pub proof fn lemma_paint_outside(fb: Seq<u8>, paint: Paint, x: int, y: int, val: u8, r: Rect)
    requires
        fb.len() == PIXELS,
    ensures
        !is_inside(x, y) ==> painted_at(fb, paint, x, y, val) == fb,
        r.x + r.w <= 0 || r.x >= WIDTH || r.y + r.h <= 0 || r.y >= HEIGHT ==> rect_painted(
            fb,
            paint,
            r,
        ) == fb,
{
    if r.x + r.w <= 0 || r.x >= WIDTH || r.y + r.h <= 0 || r.y >= HEIGHT {
        assert forall|i: int| 0 <= i < PIXELS implies rect_painted(fb, paint, r)[i] == fb[i] by {
            lemma_pixel_coords(i);
        }
        assert(rect_painted(fb, paint, r) =~= fb);
    }
}

proof fn lemma_index_in_range(x: int, y: int)
    requires
        is_inside(x, y),
    ensures
        0 <= pixel_index(x, y) < PIXELS,
{
    assert(0 <= y * 960 + x < 518400) by (nonlinear_arith)
        requires
            0 <= x < 960,
            0 <= y < 540,
    ;
}

/// A pixel index splits into its column and row.
pub proof fn lemma_pixel_coords(i: int)
    requires
        0 <= i < PIXELS,
    ensures
        i == pixel_index(i % WIDTH as int, i / WIDTH as int),
        is_inside(i % WIDTH as int, i / WIDTH as int),
{
    vstd::arithmetic::div_mod::lemma_fundamental_div_mod(i, WIDTH as int);
    assert(i / 960 < 540) by (nonlinear_arith)
        requires
            0 <= i < 518400,
    ;
}

/// A canvas part-way through painting a rectangle: the pixels of the rectangle
/// above row `py`, and those of row `py` left of column `px`, are painted.
pub open spec fn rect_progress(fb: Seq<u8>, paint: Paint, r: Rect, py: int, px: int) -> Seq<u8> {
    Seq::new(
        fb.len(),
        |i: int|
            if in_rect(r, i % WIDTH as int, i / WIDTH as int) && (i / WIDTH as int) < py || (
            in_rect(r, i % WIDTH as int, i / WIDTH as int) && i / WIDTH as int == py && (i
                % WIDTH as int) < px) {
                painted(paint, fb[i], 255)
            } else {
                fb[i]
            },
    )
}

} // verus!

//! Encodings of framebuffers for the panel: a full frame with two pixels per
//! byte, and the difference of two frames with one pixel pair per byte.
use crate::framebuffer::{Framebuffer, HEIGHT, PIXELS, WIDTH};
use vstd::prelude::*;

verus! {

/// How the panel drives its pixels to their target.
#[derive(Clone, Copy, Debug, PartialEq, Eq, Structural)]
pub enum DrawMode {
    /// Direct update: each pixel goes to black or white only.
    DirectUpdateBinary,
    /// Grayscale update that flashes the panel.
    Flashing,
    /// Grayscale update without flashing.
    NonFlashing,
    /// Quick grayscale update from a white panel.
    FromWhiteQuick,
    /// Quick grayscale update from a black panel.
    FromBlackQuick,
}

/// How the packed bytes lay out the pixels.
#[derive(Clone, Copy, Debug, PartialEq, Eq, Structural)]
pub enum Packing {
    /// Two pixels per byte: the first in the low nibble, the second in the high one.
    TwoPixelsPerByte,
    /// One pixel per byte: its previous value in the low nibble, its new one in the high one.
    DifferencePerByte,
}

/// Packed pixel data and the configuration the panel driver draws it with.
pub struct PreparedFramebuffer {
    pub packed: Vec<u8>,
    pub mode: DrawMode,
    pub packing: Packing,
    /// Whether the panel is taken to be white before drawing.
    pub previously_white: bool,
}

/// The 4-bit level of an intensity: its top bit spread to 0 or 15 in binary
/// mode, its top four bits otherwise.
pub open spec fn quantize(mode: DrawMode, v: u8) -> u8 {
    if mode == DrawMode::DirectUpdateBinary {
        if v >= 128 {
            15
        } else {
            0
        }
    } else {
        v / 16
    }
}

/// A byte from its low and high nibbles.
pub open spec fn nibbles(low: u8, high: u8) -> u8 {
    (high * 16 + low) as u8
}

fn quantize_level(mode: DrawMode, v: u8) -> (r: u8)
    ensures
        r == quantize(mode, v),
        r < 16,
{
    if mode == DrawMode::DirectUpdateBinary {
        if v >= 128 {
            15
        } else {
            0
        }
    } else {
        v / 16
    }
}

impl PreparedFramebuffer {
    /// Encode a full frame, two pixels per byte, for a panel that starts white.
    pub fn prepare(framebuffer: &Framebuffer, draw_mode: DrawMode) -> (r: PreparedFramebuffer)
        requires
            framebuffer.wf(),
        ensures
            r.packed@.len() == PIXELS / 2,
            forall|i: int|
                0 <= i < PIXELS / 2 ==> #[trigger] r.packed@[i] == nibbles(
                    quantize(draw_mode, framebuffer@[2 * i]),
                    quantize(draw_mode, framebuffer@[2 * i + 1]),
                ),
            draw_mode == DrawMode::DirectUpdateBinary ==> forall|i: int|
                0 <= i < PIXELS ==> #[trigger] pixel_nibble(r.packed@, i) == if framebuffer@[i]
                    >= 128 {
                    15u8
                } else {
                    0u8
                },
            r.mode == draw_mode,
            r.packing == Packing::TwoPixelsPerByte,
            r.previously_white,
    {
        let mut packed: Vec<u8> = Vec::new();
        let half: i32 = WIDTH / 2;
        let mut y: i32 = 0;
        while y < HEIGHT
            invariant
                0 <= y <= HEIGHT,
                half == 480,
                framebuffer.wf(),
                packed@.len() == y * 480,
                forall|k: int|
                    0 <= k < packed@.len() ==> #[trigger] packed@[k] == nibbles(
                        quantize(draw_mode, framebuffer@[2 * k]),
                        quantize(draw_mode, framebuffer@[2 * k + 1]),
                    ),
            decreases HEIGHT - y,
        {
            let mut x: i32 = 0;
            while x < half
                invariant
                    0 <= y < HEIGHT,
                    0 <= x <= half,
                    half == 480,
                    framebuffer.wf(),
                    packed@.len() == y * 480 + x,
                    forall|k: int|
                        0 <= k < packed@.len() ==> #[trigger] packed@[k] == nibbles(
                            quantize(draw_mode, framebuffer@[2 * k]),
                            quantize(draw_mode, framebuffer@[2 * k + 1]),
                        ),
                decreases half - x,
            {
                let l = quantize_level(draw_mode, framebuffer.get(2 * x, y));
                let r = quantize_level(draw_mode, framebuffer.get(2 * x + 1, y));
                packed.push(r * 16 + l);
                x = x + 1;
            }
            y = y + 1;
        }
        proof {
            if draw_mode == DrawMode::DirectUpdateBinary {
                assert forall|i: int| 0 <= i < PIXELS implies #[trigger] pixel_nibble(packed@, i)
                    == if framebuffer@[i] >= 128 {
                    15u8
                } else {
                    0u8
                } by {
                    let k = i / 2;
                    assert(packed@[k] == nibbles(
                        quantize(draw_mode, framebuffer@[2 * k]),
                        quantize(draw_mode, framebuffer@[2 * k + 1]),
                    ));
                }
            }
        }
        PreparedFramebuffer {
            packed,
            mode: draw_mode,
            packing: Packing::TwoPixelsPerByte,
            previously_white: true,
        }
    }

    /// Encode the change from one frame to the next, one byte per pixel: the
    /// previous level in the low nibble, the new level in the high nibble.
    pub fn prepare_difference(
        from_framebuffer: &Framebuffer,
        to_framebuffer: &Framebuffer,
        draw_mode: DrawMode,
    ) -> (r: PreparedFramebuffer)
        requires
            from_framebuffer.wf(),
            to_framebuffer.wf(),
        ensures
            r.packed@.len() == PIXELS,
            forall|i: int|
                0 <= i < PIXELS ==> #[trigger] r.packed@[i] == nibbles(
                    quantize(draw_mode, from_framebuffer@[i]),
                    quantize(draw_mode, to_framebuffer@[i]),
                ),
            forall|i: int|
                0 <= i < PIXELS ==> #[trigger] r.packed@[i] % 16 == quantize(
                    draw_mode,
                    from_framebuffer@[i],
                ) && r.packed@[i] / 16 == quantize(draw_mode, to_framebuffer@[i]),
            r.mode == draw_mode,
            r.packing == Packing::DifferencePerByte,
            !r.previously_white,
    {
        let mut packed: Vec<u8> = Vec::new();
        let mut y: i32 = 0;
        while y < HEIGHT
            invariant
                0 <= y <= HEIGHT,
                from_framebuffer.wf(),
                to_framebuffer.wf(),
                packed@.len() == y * 960,
                forall|k: int|
                    0 <= k < packed@.len() ==> #[trigger] packed@[k] == nibbles(
                        quantize(draw_mode, from_framebuffer@[k]),
                        quantize(draw_mode, to_framebuffer@[k]),
                    ),
            decreases HEIGHT - y,
        {
            let mut x: i32 = 0;
            while x < WIDTH
                invariant
                    0 <= y < HEIGHT,
                    0 <= x <= WIDTH,
                    from_framebuffer.wf(),
                    to_framebuffer.wf(),
                    packed@.len() == y * 960 + x,
                    forall|k: int|
                        0 <= k < packed@.len() ==> #[trigger] packed@[k] == nibbles(
                            quantize(draw_mode, from_framebuffer@[k]),
                            quantize(draw_mode, to_framebuffer@[k]),
                        ),
                decreases WIDTH - x,
            {
                let from = quantize_level(draw_mode, from_framebuffer.get(x, y));
                let to = quantize_level(draw_mode, to_framebuffer.get(x, y));
                packed.push(to * 16 + from);
                x = x + 1;
            }
            y = y + 1;
        }
        proof {
            assert forall|i: int| 0 <= i < PIXELS implies #[trigger] packed@[i] % 16 == quantize(
                draw_mode,
                from_framebuffer@[i],
            ) && packed@[i] / 16 == quantize(draw_mode, to_framebuffer@[i]) by {
                assert(packed@[i] == nibbles(
                    quantize(draw_mode, from_framebuffer@[i]),
                    quantize(draw_mode, to_framebuffer@[i]),
                ));
            }
        }
        PreparedFramebuffer {
            packed,
            mode: draw_mode,
            packing: Packing::DifferencePerByte,
            previously_white: false,
        }
    }
}

/// The nibble of a two-pixels-per-byte buffer that holds pixel `i`.
pub open spec fn pixel_nibble(packed: Seq<u8>, i: int) -> u8 {
    if i % 2 == 0 {
        packed[i / 2] % 16
    } else {
        packed[i / 2] / 16
    }
}

} // verus!

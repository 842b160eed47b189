use vstd::prelude::*;

use crate::machine::Chip8;

verus! {

/// The byte offset in the RGB image of the first channel of pixel (x, y).
/// The image is three bytes per pixel, with the vertical axis flipped.
pub open spec fn render_index(xx: int, yy: int) -> int {
    3 * ((31 - yy) * 64 + xx)
}

/// Distinct pixels and channels land on distinct image bytes.
proof fn lemma_render_index_inj(x1: int, y1: int, k1: int, x2: int, y2: int, k2: int)
    requires
        0 <= x1 < 64,
        0 <= x2 < 64,
        0 <= y1 < 32,
        0 <= y2 < 32,
        0 <= k1 < 3,
        0 <= k2 < 3,
        render_index(x1, y1) + k1 == render_index(x2, y2) + k2,
    ensures
        x1 == x2,
        y1 == y2,
        k1 == k2,
{
    let c1 = (31 - y1) * 64 + x1;
    let c2 = (31 - y2) * 64 + x2;
    assert(3 * c1 + k1 == 3 * c2 + k2);
    if c1 < c2 {
        assert(3 * c1 + 3 <= 3 * c2);
        assert(false);
    }
    if c2 < c1 {
        assert(3 * c2 + 3 <= 3 * c1);
        assert(false);
    }
    if y1 < y2 {
        assert((31 - y2) * 64 + 64 <= (31 - y1) * 64);
        assert(false);
    }
    if y2 < y1 {
        assert((31 - y1) * 64 + 64 <= (31 - y2) * 64);
        assert(false);
    }
}

/// Whether the first `upto` of the 2048 pixels, column-major as the renderer
/// walks them (all 32 rows of a column before the next column), are rendered
/// into the image.
pub open spec fn rendered_upto(fb: Seq<u8>, gfx: Seq<u8>, x_done: int, y_done: int) -> bool {
    forall|xx: int, yy: int|
        0 <= xx < 64 && 0 <= yy < 32 && (xx < x_done || (xx == x_done && yy < y_done)) ==> {
            &&& fb[#[trigger] render_index(xx, yy)] == 0u8
            &&& fb[render_index(xx, yy) + 1] == 255 * gfx[64 * yy + xx]
            &&& fb[render_index(xx, yy) + 2] == 0u8
        }
}

/// Converts the monochrome framebuffer into a 64x32 RGB image, three bytes
/// per pixel, row-major with the vertical axis flipped: a lit cell becomes
/// full green, an unlit cell black.
#[verifier::loop_isolation(false)]
pub fn render(chip8: &Chip8, framebuffer: &mut Vec<u8>)
    requires
        chip8.wf(),
        old(framebuffer)@.len() == 6144,
    ensures
        final(framebuffer)@.len() == 6144,
        forall|xx: int, yy: int|
            0 <= xx < 64 && 0 <= yy < 32 ==> {
                &&& final(framebuffer)@[#[trigger] render_index(xx, yy)] == 0u8
                &&& final(framebuffer)@[render_index(xx, yy) + 1] == 255 * chip8@.gfx[64 * yy + xx]
                &&& final(framebuffer)@[render_index(xx, yy) + 2] == 0u8
            },
{
    let mut x: usize = 0;
    while x < 64
        invariant
            x <= 64,
            framebuffer@.len() == 6144,
            rendered_upto(framebuffer@, chip8@.gfx, x as int, 0),
        decreases 64 - x,
    {
        let mut y: usize = 0;
        while y < 32
            invariant
                y <= 32,
                x < 64,
                framebuffer@.len() == 6144,
                rendered_upto(framebuffer@, chip8@.gfx, x as int, y as int),
            decreases 32 - y,
        {
            let ti = 3 * ((31 - y) * 64 + x);
            let source = chip8.graphics[64 * y + x];
            let ghost fb_prev = framebuffer@;
            framebuffer.set(ti, 0);
            framebuffer.set(ti + 1, 255 * source);
            framebuffer.set(ti + 2, 0);
            proof {
                assert(ti == render_index(x as int, y as int));
                assert forall|xx: int, yy: int|
                    0 <= xx < 64 && 0 <= yy < 32 && (xx < x || (xx == x && yy < y + 1)) implies {
                    &&& framebuffer@[#[trigger] render_index(xx, yy)] == 0u8
                    &&& framebuffer@[render_index(xx, yy) + 1] == 255 * chip8@.gfx[64 * yy + xx]
                    &&& framebuffer@[render_index(xx, yy) + 2] == 0u8
                } by {
                    if xx == x && yy == y {
                    } else {
                        let a = render_index(xx, yy);
                        let bi = render_index(x as int, y as int);
                        if a == bi {
                            lemma_render_index_inj(xx, yy, 0, x as int, y as int, 0);
                        }
                        if a == bi + 1 {
                            lemma_render_index_inj(xx, yy, 0, x as int, y as int, 1);
                        }
                        if a == bi + 2 {
                            lemma_render_index_inj(xx, yy, 0, x as int, y as int, 2);
                        }
                        if a + 1 == bi {
                            lemma_render_index_inj(xx, yy, 1, x as int, y as int, 0);
                        }
                        if a + 2 == bi {
                            lemma_render_index_inj(xx, yy, 2, x as int, y as int, 0);
                        }
                        assert(framebuffer@[a] == fb_prev[a]);
                        assert(framebuffer@[a + 1] == fb_prev[a + 1]);
                        assert(framebuffer@[a + 2] == fb_prev[a + 2]);
                    }
                }
            }
            y += 1;
        }
        x += 1;
    }
}

/// The scancode of each key on the 4x4 pad, mapped to its logical keypad
/// digit; every other scancode maps to nothing.
pub open spec fn spec_keymap(scancode: u32) -> Option<u8> {
    if scancode == 2 {
        Some(0x1u8)
    } else if scancode == 3 {
        Some(0x2u8)
    } else if scancode == 4 {
        Some(0x3u8)
    } else if scancode == 5 {
        Some(0xCu8)
    } else if scancode == 16 {
        Some(0x4u8)
    } else if scancode == 17 {
        Some(0x5u8)
    } else if scancode == 18 {
        Some(0x6u8)
    } else if scancode == 19 {
        Some(0xDu8)
    } else if scancode == 30 {
        Some(0x7u8)
    } else if scancode == 31 {
        Some(0x8u8)
    } else if scancode == 32 {
        Some(0x9u8)
    } else if scancode == 33 {
        Some(0xEu8)
    } else if scancode == 44 {
        Some(0xAu8)
    } else if scancode == 45 {
        Some(0x0u8)
    } else if scancode == 46 {
        Some(0xBu8)
    } else if scancode == 47 {
        Some(0xFu8)
    } else {
        None
    }
}

/// Maps a keyboard scancode to the logical keypad key it stands for; a
/// mapped key is always one of the 16 keypad digits.
pub fn keymap(scancode: u32) -> (r: Option<u8>)
    ensures
        r == spec_keymap(scancode),
        r matches Some(k) ==> k < 16,
{
    match scancode {
        2 => Some(0x1),
        3 => Some(0x2),
        4 => Some(0x3),
        5 => Some(0xC),
        16 => Some(0x4),
        17 => Some(0x5),
        18 => Some(0x6),
        19 => Some(0xD),
        30 => Some(0x7),
        31 => Some(0x8),
        32 => Some(0x9),
        33 => Some(0xE),
        44 => Some(0xA),
        45 => Some(0x0),
        46 => Some(0xB),
        47 => Some(0xF),
        _ => None,
    }
}

} // verus!

//! String drawing and printing to the basic framebuffer.

use crate::screen::font::{draw_string_upto, fg_color, Psf2Font};
use crate::screen::framebuffer::BasicFramebuffer;
use vstd::prelude::*;

verus! {

/// Draw `string` with `font`, using and advancing the cursor (`x`, `y`).
pub fn draw_string(
    fb: &mut BasicFramebuffer,
    font: &Psf2Font,
    string: &str,
    x: &mut usize,
    y: &mut usize,
    font_color: Option<u32>,
)
    requires
        font.wf(),
        old(fb).wf(),
        *old(x) + font.hdr().width <= usize::MAX,
        old(fb).width + font.hdr().width <= usize::MAX,
        *old(y) + (string@.len() + 1) * font.hdr().height <= usize::MAX,
    ensures
        final(fb).wf(),
        final(fb).bytes_per_row == old(fb).bytes_per_row,
        final(fb).width == old(fb).width,
        final(fb).height == old(fb).height,
        (final(fb).pixels@, *final(x) as int, *final(y) as int) == draw_string_upto(
            old(fb).pixels@,
            old(fb).bytes_per_row as int,
            old(fb).width,
            old(fb).height,
            font.font_bytes(),
            font.hdr(),
            string@,
            *old(x) as int,
            *old(y) as int,
            fg_color(font_color),
            string@.len() as int,
        ),
{
    font.draw_string(fb, string, x, y, font_color);
}

/// Draw `string` from the cursor (`x`, `y`) and return the cursor after it, leaving the
/// caller's variables alone.
pub fn draw_string_no_mut(
    fb: &mut BasicFramebuffer,
    font: &Psf2Font,
    string: &str,
    x: usize,
    y: usize,
    font_color: Option<u32>,
) -> (r: (usize, usize))
    requires
        font.wf(),
        old(fb).wf(),
        x + font.hdr().width <= usize::MAX,
        old(fb).width + font.hdr().width <= usize::MAX,
        y + (string@.len() + 1) * font.hdr().height <= usize::MAX,
    ensures
        final(fb).wf(),
        final(fb).bytes_per_row == old(fb).bytes_per_row,
        final(fb).width == old(fb).width,
        final(fb).height == old(fb).height,
        (final(fb).pixels@, r.0 as int, r.1 as int) == draw_string_upto(
            old(fb).pixels@,
            old(fb).bytes_per_row as int,
            old(fb).width,
            old(fb).height,
            font.font_bytes(),
            font.hdr(),
            string@,
            x as int,
            y as int,
            fg_color(font_color),
            string@.len() as int,
        ),
{
    let mut cursor_x = x;
    let mut cursor_y = y;
    draw_string(fb, font, string, &mut cursor_x, &mut cursor_y, font_color);
    (cursor_x, cursor_y)
}

/// The cursor of the text console.
#[derive(Clone, Copy, PartialEq, Eq, Structural, Debug)]
pub struct VgaPrintState {
    pub x: usize,
    pub y: usize,
}

/// The pixels after scrolling up by `off` pixels: the first `count` pixels take the values
/// `off` further on, the rest are cleared.
pub open spec fn scrolled(p: Seq<u32>, off: int, count: int) -> Seq<u32> {
    Seq::new(p.len(), |i: int| if i < count { p[i + off] } else { 0u32 })
}

/// Print `string` at the console cursor. When the cursor ends up below the last glyph
/// row, it is put on the last row and the screen scrolls up by one glyph row, the freed
/// row at the bottom cleared.
pub fn print_to_basic_fb(
    state: &mut VgaPrintState,
    fb: &mut BasicFramebuffer,
    font: &Psf2Font,
    string: &str,
)
    requires
        font.wf(),
        old(fb).wf(),
        font.hdr().height <= old(fb).height,
        old(state).x + font.hdr().width <= usize::MAX,
        old(fb).width + font.hdr().width <= usize::MAX,
        old(state).y + (string@.len() + 1) * font.hdr().height <= usize::MAX,
    ensures
        final(fb).wf(),
        final(fb).bytes_per_row == old(fb).bytes_per_row,
        final(fb).width == old(fb).width,
        final(fb).height == old(fb).height,
        ({
            let drawn = draw_string_upto(
                old(fb).pixels@,
                old(fb).bytes_per_row as int,
                old(fb).width,
                old(fb).height,
                font.font_bytes(),
                font.hdr(),
                string@,
                old(state).x as int,
                old(state).y as int,
                fg_color(None),
                string@.len() as int,
            );
            let last_row = old(fb).height - font.hdr().height;
            let stride = old(fb).bytes_per_row as int;
            &&& final(state).x == drawn.1
            &&& final(state).y <= last_row
            &&& drawn.2 > last_row ==> final(state).y == last_row && final(fb).pixels@ == scrolled(
                drawn.0,
                font.hdr().height * stride,
                last_row * stride,
            )
            &&& drawn.2 <= last_row ==> final(state).y == drawn.2 && final(fb).pixels@ == drawn.0
        }),
{
    let gh = font.glyph_height();
    let last_row = fb.height as usize - gh;
    let mut x = state.x;
    let mut y = state.y;
    draw_string(fb, font, string, &mut x, &mut y, None);
    state.x = x;
    state.y = y;
    if state.y > last_row {
        state.y = last_row;
        let stride = fb.bytes_per_row as usize;
        proof {
            assert(gh as int * stride as int + last_row as int * stride as int == stride as int
                * fb.height as int) by (nonlinear_arith)
                requires
                    gh + last_row == fb.height,
            ;
            assert(0 <= gh as int * stride as int && 0 <= last_row as int * stride as int)
                by (nonlinear_arith);
        }
        let off = gh * stride;
        let count = last_row * stride;
        let ghost p1 = fb.pixels@;
        let mut i: usize = 0;
        while i < count
            invariant
                fb.wf(),
                fb.bytes_per_row == old(fb).bytes_per_row,
                fb.width == old(fb).width,
                fb.height == old(fb).height,
                off + count == fb.pixels@.len(),
                p1.len() == fb.pixels@.len(),
                i <= count,
                forall|j: int| 0 <= j < i ==> fb.pixels@[j] == p1[j + off],
                forall|j: int| i <= j < fb.pixels@.len() ==> fb.pixels@[j] == p1[j],
            decreases count - i,
        {
            let v = fb.pixels[i + off];
            fb.pixels.set(i, v);
            i += 1;
        }
        let end = fb.pixels.len();
        let mut j: usize = count;
        while j < end
            invariant
                fb.wf(),
                fb.bytes_per_row == old(fb).bytes_per_row,
                fb.width == old(fb).width,
                fb.height == old(fb).height,
                off + count == fb.pixels@.len(),
                end == fb.pixels@.len(),
                p1.len() == fb.pixels@.len(),
                count <= j <= end,
                forall|k: int| 0 <= k < count ==> fb.pixels@[k] == p1[k + off],
                forall|k: int| count <= k < j ==> fb.pixels@[k] == 0,
            decreases end - j,
        {
            fb.pixels.set(j, 0);
            j += 1;
        }
        assert(fb.pixels@ =~= scrolled(p1, off as int, count as int));
    }
}

} // verus!

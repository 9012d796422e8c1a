//! PSF2 bitmap font loading and character rendering.
//!
//! PSF2 (PC Screen Font version 2) is a simple binary format: a fixed-size header
//! followed by a packed array of glyph bitmaps. Each glyph is `bytes_per_glyph`
//! bytes wide, laid out as `height` rows of `ceil(width / 8)` bytes each. Bit 7
//! of each byte corresponds to the leftmost pixel of that byte's group of 8.
//!
//! Glyphs are indexed by Unicode codepoint; characters with a codepoint at or above
//! `glyph_count` are silently skipped.

use crate::screen::framebuffer::BasicFramebuffer;
use vstd::arithmetic::div_mod::{lemma_fundamental_div_mod, lemma_fundamental_div_mod_converse};
use vstd::prelude::*;

verus! {

/// Expected first four bytes of a valid PSF2 file, read little-endian.
pub const MAGIC_NUMBER: u32 = 0x864ab572;

/// Pixel color written for bits that are 0 in the glyph bitmap (background).
pub const BACKGROUND_COLOR: u32 = 0x00000000;

/// Pixel color used when the caller passes `None` as the foreground color.
pub const DEFAULT_FOREGROUND_COLOR: u32 = 0x00FFFFFF;

/// Parsed PSF2 file header. Only the fields needed for rendering are extracted.
#[derive(Clone, Copy, PartialEq, Eq, Structural, Debug)]
pub struct Psf2Header {
    /// Byte offset where the glyph bitmap data begins (equals the header size).
    pub header_size: u32,
    /// Total number of glyphs in the file; also the maximum Unicode codepoint index.
    pub glyph_count: u32,
    /// Number of bytes occupied by one glyph's bitmap data.
    pub bytes_per_glyph: u32,
    /// Glyph height in pixels (rows per glyph).
    pub height: u32,
    /// Glyph width in pixels (columns per glyph).
    pub width: u32,
}

/// The little-endian `u32` at byte offset `off`.
pub open spec fn le_u32(b: Seq<u8>, off: int) -> u32 {
    (b[off] as int + b[off + 1] as int * 0x100 + b[off + 2] as int * 0x1_0000 + b[off + 3] as int
        * 0x100_0000) as u32
}

/// The header fields at their fixed offsets.
pub open spec fn header_of(b: Seq<u8>) -> Psf2Header {
    Psf2Header {
        header_size: le_u32(b, 8),
        glyph_count: le_u32(b, 16),
        bytes_per_glyph: le_u32(b, 20),
        height: le_u32(b, 24),
        width: le_u32(b, 28),
    }
}

/// Bytes per glyph row.
pub open spec fn row_bytes(h: Psf2Header) -> int {
    (h.width as int + 7) / 8
}

/// The glyph table lies inside the file and each glyph holds its rows.
pub open spec fn glyphs_fit(b: Seq<u8>, h: Psf2Header) -> bool {
    &&& h.header_size as int + h.glyph_count as int * h.bytes_per_glyph as int <= b.len()
    &&& h.width as int + 7 <= u32::MAX
    &&& h.height as int * row_bytes(h) <= h.bytes_per_glyph
}

/// A PSF2 file this module can render from: a full header with the magic number, and a
/// glyph table that fits.
pub open spec fn psf2_valid(b: Seq<u8>) -> bool {
    &&& b.len() >= 32
    &&& le_u32(b, 0) == MAGIC_NUMBER
    &&& glyphs_fit(b, header_of(b))
}

/// Byte of glyph `c` that holds pixel (`row`, `col`).
pub open spec fn glyph_byte(b: Seq<u8>, h: Psf2Header, c: char, row: int, col: int) -> u8 {
    b[h.header_size as int + (c as int) * h.bytes_per_glyph as int + row * row_bytes(h) + col / 8]
}

/// Whether pixel (`row`, `col`) of glyph `c` is set.
pub open spec fn glyph_bit(b: Seq<u8>, h: Psf2Header, c: char, row: int, col: int) -> bool {
    (glyph_byte(b, h, c, row, col) >> ((7 - col % 8) as usize)) & 1u8 == 1u8
}

/// The foreground color actually used.
pub open spec fn fg_color(font_color: Option<u32>) -> u32 {
    match font_color {
        Some(c) => c,
        None => DEFAULT_FOREGROUND_COLOR,
    }
}

/// The color of pixel (`row`, `col`) of glyph `c`.
pub open spec fn glyph_color(b: Seq<u8>, h: Psf2Header, c: char, row: int, col: int, fg: u32) -> u32 {
    if glyph_bit(b, h, c, row, col) {
        fg
    } else {
        BACKGROUND_COLOR
    }
}

/// Glyph `c` exists and fits in a framebuffer of the given size at (`x`, `y`).
pub open spec fn char_fits(h: Psf2Header, fb_width: u64, fb_height: u64, c: char, x: int, y: int) -> bool {
    &&& (c as int) < h.glyph_count
    &&& x + h.width <= fb_width
    &&& y + h.height <= fb_height
}

/// The pixels after glyph `c` was drawn with its top left corner at (`x`, `y`), restricted
/// to the glyph rows before `row` and the first `col` pixels of row `row`.
pub open spec fn painted_upto(
    px: Seq<u32>,
    stride: int,
    b: Seq<u8>,
    h: Psf2Header,
    c: char,
    x: int,
    y: int,
    fg: u32,
    row: int,
    col: int,
) -> Seq<u32> {
    Seq::new(
        px.len(),
        |i: int|
            {
                let r = i / stride - y;
                let k = i % stride - x;
                if 0 <= r < h.height && 0 <= k < h.width && (r < row || (r == row && k < col)) {
                    glyph_color(b, h, c, r, k, fg)
                } else {
                    px[i]
                }
            },
    )
}

/// The pixels after glyph `c` was drawn with its top left corner at (`x`, `y`).
pub open spec fn painted(
    px: Seq<u32>,
    stride: int,
    b: Seq<u8>,
    h: Psf2Header,
    c: char,
    x: int,
    y: int,
    fg: u32,
) -> Seq<u32> {
    painted_upto(px, stride, b, h, c, x, y, fg, h.height as int, 0)
}

/// Read the little-endian `u32` at byte offset `off`.
fn read_u32(b: &[u8], off: usize) -> (r: u32)
    requires
        off + 4 <= b@.len(),
    ensures
        r == le_u32(b@, off as int),
{
    let b0 = b[off] as u32;
    let b1 = b[off + 1] as u32;
    let b2 = b[off + 2] as u32;
    let b3 = b[off + 3] as u32;
    b0 + b1 * 0x100 + b2 * 0x1_0000 + b3 * 0x100_0000
}

impl Psf2Header {
    /// Parse the header of a PSF2 file whose magic number is valid.
    pub fn parse(psf2_font: &[u8]) -> (r: Self)
        requires
            psf2_font@.len() >= 32,
            le_u32(psf2_font@, 0) == MAGIC_NUMBER,
        ensures
            r == header_of(psf2_font@),
    {
        Psf2Header {
            header_size: read_u32(psf2_font, 8),
            glyph_count: read_u32(psf2_font, 16),
            bytes_per_glyph: read_u32(psf2_font, 20),
            height: read_u32(psf2_font, 24),
            width: read_u32(psf2_font, 28),
        }
    }
}

/// Parse the header of a PSF2 file, or `None` if the magic number is wrong.
pub fn parse_psf2_header(psf2_font: &[u8]) -> (r: Option<Psf2Header>)
    requires
        psf2_font@.len() >= 32,
    ensures
        r == (if le_u32(psf2_font@, 0) == MAGIC_NUMBER {
            Some(header_of(psf2_font@))
        } else {
            None
        }),
{
    if read_u32(psf2_font, 0) != MAGIC_NUMBER {
        return None;
    }
    Some(Psf2Header::parse(psf2_font))
}

/// Whether `b` is a PSF2 file [`Psf2Font::init`] takes: see [`psf2_valid`].
pub fn psf2_valid_bytes(b: &[u8]) -> (r: bool)
    ensures
        r == psf2_valid(b@),
{
    if b.len() < 32 || read_u32(b, 0) != MAGIC_NUMBER {
        return false;
    }
    let h = Psf2Header::parse(b);
    let gc = h.glyph_count as u64;
    let bpg = h.bytes_per_glyph as u64;
    proof {
        assert(gc * bpg <= 0xffff_ffff * 0xffff_ffffu64) by (nonlinear_arith)
            requires
                gc <= 0xffff_ffff,
                bpg <= 0xffff_ffff,
        ;
    }
    let table = gc * bpg;
    let end = match (h.header_size as u64).checked_add(table) {
        Some(e) => e,
        None => {
            return false;
        },
    };
    if end > b.len() as u64 || h.width as u64 + 7 > u32::MAX as u64 {
        return false;
    }
    let hh = h.height as u64;
    let rb = (h.width as u64 + 7) / 8;
    proof {
        assert(hh * rb <= 0xffff_ffff * 0x2000_0000u64) by (nonlinear_arith)
            requires
                hh <= 0xffff_ffff,
                rb <= 0x2000_0000,
        ;
    }
    hh * rb <= h.bytes_per_glyph as u64
}

/// A loaded and parsed PSF2 font, ready for rendering into a [`BasicFramebuffer`].
pub struct Psf2Font {
    font: Vec<u8>,
    header: Psf2Header,
}

/// Pixel (`col`, `row`) of a glyph drawn at (`x`, `y`) lies inside the framebuffer, at
/// the index whose quotient and remainder by the stride give it back.
proof fn lemma_pixel_index(x: int, y: int, row: int, col: int, stride: int, height: int, width: int)
    requires
        0 <= x,
        0 <= y,
        0 <= row,
        0 <= col,
        y + row < height,
        x + col < width,
        width <= stride,
    ensures
        0 <= (y + row) * stride + x + col < stride * height,
        ((y + row) * stride + x + col) / stride == y + row,
        ((y + row) * stride + x + col) % stride == x + col,
{
    let p = (y + row) * stride + x + col;
    assert(0 <= (y + row) * stride && (y + row) * stride + stride <= stride * height)
        by (nonlinear_arith)
        requires
            0 <= y + row < height,
            stride >= 0,
    ;
    lemma_fundamental_div_mod_converse(p, stride, y + row, x + col);
}

/// An index with the same quotient and remainder as a pixel index is that index.
proof fn lemma_same_pixel(i: int, stride: int, q: int, r: int)
    requires
        stride > 0,
        i / stride == q,
        i % stride == r,
    ensures
        i == q * stride + r,
{
    lemma_fundamental_div_mod(i, stride);
    assert(stride * (i / stride) == q * stride) by (nonlinear_arith)
        requires
            i / stride == q,
    ;
}

impl Psf2Font {
    /// The raw font file.
    pub closed spec fn font_bytes(&self) -> Seq<u8> {
        self.font@
    }

    /// The parsed header.
    pub closed spec fn hdr(&self) -> Psf2Header {
        self.header
    }

    /// The header is the one in the file, and the glyph table fits in the file.
    pub open spec fn wf(&self) -> bool {
        &&& psf2_valid(self.font_bytes())
        &&& self.hdr() == header_of(self.font_bytes())
    }

    /// Load a PSF2 font from the bytes of its file.
    pub fn init(font: Vec<u8>) -> (r: Self)
        requires
            psf2_valid(font@),
        ensures
            r.wf(),
            r.font_bytes() == font@,
            r.hdr() == header_of(font@),
    {
        let header = Psf2Header::parse(font.as_slice());
        Psf2Font { font, header }
    }

    /// Return the height of one glyph in pixels.
    pub fn glyph_height(&self) -> (r: usize)
        ensures
            r == self.hdr().height,
    {
        self.header.height as usize
    }

    /// Return the raw glyph bytes for character `c`, or `None` if `c` has no glyph.
    pub fn parse_char(&self, c: char) -> (r: Option<&[u8]>)
        requires
            self.wf(),
        ensures
            (c as int) < self.hdr().glyph_count ==> (r matches Some(g) && g@
                == self.font_bytes().subrange(
                self.hdr().header_size as int + (c as int) * self.hdr().bytes_per_glyph as int,
                self.hdr().header_size as int + (c as int) * self.hdr().bytes_per_glyph as int
                    + self.hdr().bytes_per_glyph as int,
            )),
            (c as int) >= self.hdr().glyph_count ==> r is None,
    {
        let char_index = c as u32;
        if char_index >= self.header.glyph_count {
            return None;
        }
        let hs = self.header.header_size as usize;
        let bpg = self.header.bytes_per_glyph as usize;
        let font = self.font.as_slice();
        proof {
            assert(char_index as int == c as int);
            assert(font@.len() == font.len());
            let ci = char_index as int;
            let gc = self.header.glyph_count as int;
            assert(ci * bpg + bpg <= gc * bpg) by (nonlinear_arith)
                requires
                    ci < gc,
                    bpg >= 0,
            ;
        }
        let start = hs + (char_index as usize) * bpg;
        Some(&font[start..start + bpg])
    }

    /// Render one character into the framebuffer with its top left corner at (`x`, `y`):
    /// set glyph bits get `font_color` (or [`DEFAULT_FOREGROUND_COLOR`]), clear bits get
    /// [`BACKGROUND_COLOR`].
    ///
    /// Returns the x position immediately after the drawn glyph, or `x` unchanged, with
    /// nothing drawn, if the character has no glyph or would not fit in the framebuffer.
    pub fn draw_char(
        &self,
        fb: &mut BasicFramebuffer,
        c: char,
        x: usize,
        y: usize,
        font_color: Option<u32>,
    ) -> (r: usize)
        requires
            self.wf(),
            old(fb).wf(),
            x + self.hdr().width <= usize::MAX,
            y + self.hdr().height <= usize::MAX,
        ensures
            final(fb).wf(),
            final(fb).bytes_per_row == old(fb).bytes_per_row,
            final(fb).width == old(fb).width,
            final(fb).height == old(fb).height,
            char_fits(self.hdr(), old(fb).width, old(fb).height, c, x as int, y as int) ==> r == x
                + self.hdr().width && final(fb).pixels@ == painted(
                old(fb).pixels@,
                old(fb).bytes_per_row as int,
                self.font_bytes(),
                self.hdr(),
                c,
                x as int,
                y as int,
                fg_color(font_color),
            ),
            !char_fits(self.hdr(), old(fb).width, old(fb).height, c, x as int, y as int) ==> r == x
                && final(fb).pixels@ == old(fb).pixels@,
    {
        let glyph = match self.parse_char(c) {
            Some(g) => g,
            None => {
                return x;
            },
        };
        let w = self.header.width as usize;
        let gh = self.header.height as usize;
        if x + w > fb.width as usize || y + gh > fb.height as usize {
            return x;
        }
        let fg = match font_color {
            Some(color) => color,
            None => DEFAULT_FOREGROUND_COLOR,
        };
        let row_stride = ((self.header.width + 7) / 8) as usize;
        let stride = fb.bytes_per_row as usize;
        let ghost px0 = fb.pixels@;
        let ghost b = self.font_bytes();
        let ghost hdr = self.hdr();
        let ghost start = hdr.header_size as int + (c as int) * hdr.bytes_per_glyph as int;
        proof {
            let ci = c as int;
            let gc = hdr.glyph_count as int;
            let bpg = hdr.bytes_per_glyph as int;
            assert(ci * bpg + bpg <= gc * bpg) by (nonlinear_arith)
                requires
                    ci < gc,
                    bpg >= 0,
            ;
            assert(px0 =~= painted_upto(px0, stride as int, b, hdr, c, x as int, y as int, fg, 0, 0));
        }
        let mut row: usize = 0;
        while row < gh
            invariant
                self.wf(),
                fb.wf(),
                fb.bytes_per_row == old(fb).bytes_per_row,
                fb.width == old(fb).width,
                fb.height == old(fb).height,
                px0 == old(fb).pixels@,
                b == self.font_bytes(),
                hdr == self.hdr(),
                stride == fb.bytes_per_row,
                w == hdr.width,
                gh == hdr.height,
                row_stride == row_bytes(hdr),
                start == hdr.header_size as int + (c as int) * hdr.bytes_per_glyph as int,
                glyph@ == b.subrange(start, start + hdr.bytes_per_glyph as int),
                glyph@.len() == hdr.bytes_per_glyph,
                0 <= start,
                start + hdr.bytes_per_glyph <= b.len(),
                (c as int) < hdr.glyph_count,
                x + w <= fb.width,
                y + gh <= fb.height,
                row <= gh,
                fb.pixels@ == painted_upto(px0, stride as int, b, hdr, c, x as int, y as int, fg, row as int, 0),
            decreases gh - row,
        {
            let mut col: usize = 0;
            while col < w
                invariant
                    self.wf(),
                    fb.wf(),
                    fb.bytes_per_row == old(fb).bytes_per_row,
                    fb.width == old(fb).width,
                    fb.height == old(fb).height,
                    px0 == old(fb).pixels@,
                    b == self.font_bytes(),
                    hdr == self.hdr(),
                    stride == fb.bytes_per_row,
                    w == hdr.width,
                    gh == hdr.height,
                    row_stride == row_bytes(hdr),
                    start == hdr.header_size as int + (c as int) * hdr.bytes_per_glyph as int,
                    glyph@ == b.subrange(start, start + hdr.bytes_per_glyph as int),
                    glyph@.len() == hdr.bytes_per_glyph,
                    0 <= start,
                    start + hdr.bytes_per_glyph <= b.len(),
                0 <= start,
                start + hdr.bytes_per_glyph <= b.len(),
                    (c as int) < hdr.glyph_count,
                glyph@.len() == hdr.bytes_per_glyph,
                0 <= start,
                start + hdr.bytes_per_glyph <= b.len(),
                (c as int) < hdr.glyph_count,
                    x + w <= fb.width,
                    y + gh <= fb.height,
                    row < gh,
                    col <= w,
                    fb.pixels@ == painted_upto(
                        px0,
                        stride as int,
                        b,
                        hdr,
                        c,
                        x as int,
                        y as int,
                        fg,
                        row as int,
                        col as int,
                    ),
                decreases w - col,
            {
                proof {
                    let ri = row as int;
                    let ci = col as int;
                    let rs = row_stride as int;
                    let hh = gh as int;
                    assert(hh * rs <= hdr.bytes_per_glyph);
                    assert(ri * rs + ci / 8 < hh * rs) by (nonlinear_arith)
                        requires
                            0 <= ri < hh,
                            0 <= ci < w,
                            rs == (w + 7) / 8,
                    ;
                    lemma_pixel_index(
                        x as int,
                        y as int,
                        ri,
                        ci,
                        stride as int,
                        fb.height as int,
                        fb.width as int,
                    );
                }
                let byte = glyph[row * row_stride + col / 8];
                let bit = (byte >> (7 - (col % 8))) & 1;
                let color = if bit == 1 {
                    fg
                } else {
                    BACKGROUND_COLOR
                };
                let pixel_pos = (y + row) * stride + (x + col);
                let ghost before = fb.pixels@;
                fb.pixels.set(pixel_pos, color);
                proof {
                    let ri = row as int;
                    let ci = col as int;
                    let k = ri * (row_stride as int) + ci / 8;
                    assert(glyph@[k] == b[start + k]);
                    assert(byte == glyph@[k]);
                    assert(start + k == hdr.header_size as int + (c as int)
                        * hdr.bytes_per_glyph as int + ri * row_bytes(hdr) + ci / 8);
                    assert(byte == glyph_byte(b, hdr, c, ri, ci));
                    assert(color == glyph_color(b, hdr, c, ri, ci, fg));
                    let next = painted_upto(
                        px0,
                        stride as int,
                        b,
                        hdr,
                        c,
                        x as int,
                        y as int,
                        fg,
                        ri,
                        ci + 1,
                    );
                    assert forall|i: int| 0 <= i < fb.pixels@.len() implies fb.pixels@[i]
                        == next[i] by {
                        if i != pixel_pos as int {
                            if i / (stride as int) - y == ri && i % (stride as int) - x == ci {
                                lemma_same_pixel(i, stride as int, y + ri, x + ci);
                            }
                        }
                    }
                    assert(fb.pixels@ =~= next);
                }
                col += 1;
            }
            proof {
                let cur = painted_upto(
                    px0,
                    stride as int,
                    b,
                    hdr,
                    c,
                    x as int,
                    y as int,
                    fg,
                    row as int,
                    w as int,
                );
                let nxt = painted_upto(
                    px0,
                    stride as int,
                    b,
                    hdr,
                    c,
                    x as int,
                    y as int,
                    fg,
                    row as int + 1,
                    0,
                );
                assert(cur =~= nxt);
            }
            row += 1;
        }
        x + w
    }

    /// Render a string into the framebuffer, advancing the cursor after each character.
    ///
    /// `x` and `y` are updated in place: each character advances `*x` by the glyph
    /// width (via the return value of `draw_char`). A `'\n'` character resets `*x` to
    /// 0 and advances `*y` by the glyph height.
    pub fn draw_string(
        &self,
        fb: &mut BasicFramebuffer,
        string: &str,
        x: &mut usize,
        y: &mut usize,
        font_color: Option<u32>,
    )
        requires
            self.wf(),
            old(fb).wf(),
            *old(x) + self.hdr().width <= usize::MAX,
            old(fb).width + self.hdr().width <= usize::MAX,
            *old(y) + (string@.len() + 1) * self.hdr().height <= usize::MAX,
        ensures
            final(fb).wf(),
            final(fb).bytes_per_row == old(fb).bytes_per_row,
            final(fb).width == old(fb).width,
            final(fb).height == old(fb).height,
            (final(fb).pixels@, *final(x) as int, *final(y) as int) == draw_string_upto(
                old(fb).pixels@,
                old(fb).bytes_per_row as int,
                old(fb).width,
                old(fb).height,
                self.font_bytes(),
                self.hdr(),
                string@,
                *old(x) as int,
                *old(y) as int,
                fg_color(font_color),
                string@.len() as int,
            ),
    {
        let ghost px0 = fb.pixels@;
        let ghost x0 = *x as int;
        let ghost y0 = *y as int;
        let ghost hh = self.hdr().height as int;
        let ghost ww = self.hdr().width as int;
        proof {
            broadcast use vstd::string::axiom_spec_iter;
        }
        for c in it: string.chars()
            invariant
                self.wf(),
                fb.wf(),
                fb.bytes_per_row == old(fb).bytes_per_row,
                fb.width == old(fb).width,
                fb.height == old(fb).height,
                px0 == old(fb).pixels@,
                x0 == *old(x),
                y0 == *old(y),
                hh == self.hdr().height,
                ww == self.hdr().width,
                it.seq() == string@,
                x0 + ww <= usize::MAX,
                fb.width + ww <= usize::MAX,
                y0 + (string@.len() + 1) * hh <= usize::MAX,
                *x == x0 || *x == 0 || *x <= fb.width,
                *y <= y0 + it.index() * hh,
                (fb.pixels@, *x as int, *y as int) == draw_string_upto(
                    px0,
                    fb.bytes_per_row as int,
                    fb.width,
                    fb.height,
                    self.font_bytes(),
                    self.hdr(),
                    string@,
                    x0,
                    y0,
                    fg_color(font_color),
                    it.index() as int,
                ),
        {
            let ghost k = it.index() as int;
            proof {
                assert(k < string@.len());
                assert(y0 + k * hh + hh <= y0 + (string@.len() + 1) * hh) by (nonlinear_arith)
                    requires
                        0 <= k < string@.len(),
                        hh >= 0,
                ;
                assert(k * hh + hh == (k + 1) * hh) by (nonlinear_arith);
            }
            if c == '\n' {
                *x = 0;
                *y = *y + self.header.height as usize;
            } else {
                *x = self.draw_char(fb, c, *x, *y, font_color);
            }
        }
    }
}

/// The pixels and the cursor after the first `k` characters of `s` were drawn from
/// (`x0`, `y0`): a newline moves the cursor to the start of the next glyph row, a
/// character that fits is painted and moves the cursor right by the glyph width, and one
/// that does not fit (or has no glyph) changes nothing.
pub open spec fn draw_string_upto(
    px0: Seq<u32>,
    stride: int,
    fb_width: u64,
    fb_height: u64,
    b: Seq<u8>,
    h: Psf2Header,
    s: Seq<char>,
    x0: int,
    y0: int,
    fg: u32,
    k: int,
) -> (Seq<u32>, int, int)
    decreases k,
{
    if k <= 0 {
        (px0, x0, y0)
    } else {
        let prev = draw_string_upto(px0, stride, fb_width, fb_height, b, h, s, x0, y0, fg, k - 1);
        let c = s[k - 1];
        if c == '\n' {
            (prev.0, 0, prev.2 + h.height)
        } else if char_fits(h, fb_width, fb_height, c, prev.1, prev.2) {
            (painted(prev.0, stride, b, h, c, prev.1, prev.2, fg), prev.1 + h.width, prev.2)
        } else {
            prev
        }
    }
}

/// Drawing the first `k` characters of a string moves the cursor down by at most one glyph
/// row per character, and leaves it where it started, at the left edge, or so that it is
/// within the framebuffer's width.
pub proof fn lemma_draw_string_cursor(
    px0: Seq<u32>,
    stride: int,
    fb_width: u64,
    fb_height: u64,
    b: Seq<u8>,
    h: Psf2Header,
    s: Seq<char>,
    x0: int,
    y0: int,
    fg: u32,
    k: int,
)
    requires
        0 <= k,
        0 <= x0,
    ensures
        ({
            let r = draw_string_upto(px0, stride, fb_width, fb_height, b, h, s, x0, y0, fg, k);
            &&& y0 <= r.2 <= y0 + k * h.height
            &&& r.1 == x0 || 0 <= r.1 <= fb_width
        }),
    decreases k,
{
    if k > 0 {
        lemma_draw_string_cursor(px0, stride, fb_width, fb_height, b, h, s, x0, y0, fg, k - 1);
        assert((k - 1) * h.height + h.height == k * h.height) by (nonlinear_arith);
        assert(0 <= (k - 1) * h.height) by (nonlinear_arith)
            requires
                k >= 1,
        ;
    }
}

} // verus!

//! The early-boot state: the serial UART, the framebuffer and the font used on boot and on a
//! kernel panic, each initialized once.

use crate::screen::font::Psf2Font;
use crate::screen::framebuffer::BasicFramebuffer;
use crate::screen::panic_screen::{draw_lines, draw_panic_lines, lines_view, total_chars};
use vstd::prelude::*;

verus! {

/// Flag of the UART in the initialization bits.
pub const IS_UART_INIT: u8 = 1;

/// Flag of the framebuffer in the initialization bits.
pub const IS_BASIC_FB_INIT: u8 = 2;

/// Flag of the font in the initialization bits.
pub const IS_BASIC_FB_FONT_INIT: u8 = 4;

/// The UART (by its I/O port), framebuffer and font for early boot and panics, with a bit
/// per resource that says whether it was initialized.
pub struct SimpleKernelState {
    is_init: u8,
    uart: Option<u16>,
    basic_fb: Option<BasicFramebuffer>,
    basic_fb_psf2_font: Option<Psf2Font>,
}

impl SimpleKernelState {
    /// The initialization bits.
    pub closed spec fn init_bits(&self) -> u8 {
        self.is_init
    }

    /// The I/O port of the UART, once initialized.
    pub closed spec fn uart_port(&self) -> Option<u16> {
        self.uart
    }

    /// The framebuffer, once initialized.
    pub closed spec fn fb(&self) -> Option<BasicFramebuffer> {
        self.basic_fb
    }

    /// The font, once initialized.
    pub closed spec fn font(&self) -> Option<Psf2Font> {
        self.basic_fb_psf2_font
    }

    /// The UART, the framebuffer and the font are present exactly when their initialization
    /// bits are set.
    pub open spec fn wf(&self) -> bool {
        &&& (self.init_bits() & IS_UART_INIT != 0) == (self.uart_port() is Some)
        &&& (self.init_bits() & IS_BASIC_FB_INIT != 0) == (self.fb() is Some)
        &&& (self.init_bits() & IS_BASIC_FB_FONT_INIT != 0) == (self.font() is Some)
    }

    /// Nothing initialized.
    pub fn new() -> (r: Self)
        ensures
            r.wf(),
            r.init_bits() == 0,
            r.uart_port() is None,
            r.fb() is None,
            r.font() is None,
    {
        assert(0u8 & 1u8 == 0 && 0u8 & 2u8 == 0 && 0u8 & 4u8 == 0) by (bit_vector);
        SimpleKernelState { is_init: 0, uart: None, basic_fb: None, basic_fb_psf2_font: None }
    }

    /// Move the UART at the given I/O port into the state; it must not be initialized yet.
    pub fn init_uart(&mut self, port: u16)
        requires
            old(self).init_bits() & IS_UART_INIT == 0,
        ensures
            old(self).wf() ==> final(self).wf(),
            final(self).init_bits() == old(self).init_bits() | IS_UART_INIT,
            final(self).uart_port() == Some(port),
            final(self).fb() == old(self).fb(),
            final(self).font() == old(self).font(),
    {
        let bits = self.is_init;
        self.uart = Some(port);
        self.is_init = bits | IS_UART_INIT;
        assert((bits | 1u8) & 1u8 != 0 && (bits | 1u8) & 2u8 == bits & 2u8 && (bits | 1u8) & 4u8
            == bits & 4u8) by (bit_vector);
    }

    /// The I/O port of the UART; it must have been moved in.
    pub fn uart(&self) -> (r: u16)
        requires
            self.uart_port() is Some,
        ensures
            r == self.uart_port()->0,
    {
        self.uart.unwrap()
    }

    /// Check whether the UART is initialized.
    pub fn is_uart_initialized(&self) -> (r: bool)
        ensures
            r == (self.init_bits() & IS_UART_INIT != 0),
    {
        self.is_init & IS_UART_INIT != 0
    }

    /// Move the given framebuffer into the state; it must not be initialized yet.
    pub fn init_basic_fb(&mut self, basic_fb: BasicFramebuffer)
        requires
            old(self).init_bits() & IS_BASIC_FB_INIT == 0,
        ensures
            old(self).wf() ==> final(self).wf(),
            final(self).init_bits() == old(self).init_bits() | IS_BASIC_FB_INIT,
            final(self).fb() == Some(basic_fb),
            final(self).font() == old(self).font(),
            final(self).uart_port() == old(self).uart_port(),
    {
        let bits = self.is_init;
        self.basic_fb = Some(basic_fb);
        self.is_init = bits | IS_BASIC_FB_INIT;
        assert((bits | 2u8) & 2u8 != 0 && (bits | 2u8) & 4u8 == bits & 4u8 && (bits | 2u8) & 1u8
            == bits & 1u8) by (bit_vector);
    }

    /// Move the given font into the state; it must not be initialized yet.
    pub fn init_basic_fb_psf2_font(&mut self, basic_fb_psf2_font: Psf2Font)
        requires
            old(self).init_bits() & IS_BASIC_FB_FONT_INIT == 0,
        ensures
            old(self).wf() ==> final(self).wf(),
            final(self).init_bits() == old(self).init_bits() | IS_BASIC_FB_FONT_INIT,
            final(self).font() == Some(basic_fb_psf2_font),
            final(self).fb() == old(self).fb(),
            final(self).uart_port() == old(self).uart_port(),
    {
        let bits = self.is_init;
        self.basic_fb_psf2_font = Some(basic_fb_psf2_font);
        self.is_init = bits | IS_BASIC_FB_FONT_INIT;
        assert((bits | 4u8) & 4u8 != 0 && (bits | 4u8) & 2u8 == bits & 2u8 && (bits | 4u8) & 1u8
            == bits & 1u8) by (bit_vector);
    }

    /// The framebuffer; it must have been moved in.
    pub fn basic_fb(&mut self) -> (r: &mut BasicFramebuffer)
        requires
            old(self).fb() is Some,
        ensures
            *r == old(self).fb()->0,
            final(self).fb() == Some(*final(r)),
            final(self).font() == old(self).font(),
            final(self).init_bits() == old(self).init_bits(),
            final(self).uart_port() == old(self).uart_port(),
    {
        self.basic_fb.as_mut().unwrap()
    }

    /// The font; it must have been moved in.
    pub fn basic_fb_psf2_font(&self) -> (r: &Psf2Font)
        requires
            self.font() is Some,
        ensures
            *r == self.font()->0,
    {
        self.basic_fb_psf2_font.as_ref().unwrap()
    }

    /// The framebuffer together with the font, to draw with both; both must have been moved in.
    pub fn basic_fb_and_font(&mut self) -> (r: (&mut BasicFramebuffer, &Psf2Font))
        requires
            old(self).fb() is Some,
            old(self).font() is Some,
        ensures
            *r.0 == old(self).fb()->0,
            *r.1 == old(self).font()->0,
            final(self).fb() == Some(*final(r.0)),
            final(self).font() == old(self).font(),
            final(self).init_bits() == old(self).init_bits(),
            final(self).uart_port() == old(self).uart_port(),
    {
        match (&mut self.basic_fb, &self.basic_fb_psf2_font) {
            (Some(fb), Some(font)) => (fb, font),
            _ => vstd::pervasive::unreached(),
        }
    }

    /// The framebuffer and the font are both initialized.
    pub open spec fn screen_ready(&self) -> bool {
        self.fb() is Some && self.font() is Some
    }

    /// The lines can be drawn: the framebuffer and the font are well formed, and neither the
    /// cursor nor a pixel index can overflow.
    pub open spec fn lines_fit(&self, lines: Seq<(Seq<char>, Option<u32>)>) -> bool {
        self.screen_ready() ==> {
            let fb = self.fb()->0;
            let font = self.font()->0;
            &&& font.wf()
            &&& fb.wf()
            &&& fb.width + font.hdr().width <= usize::MAX
            &&& (total_chars(lines) + lines.len()) * font.hdr().height <= usize::MAX
        }
    }

    /// Where the framebuffer and the font are both initialized, clear the framebuffer and draw
    /// the lines one after another from its top left corner; returns whether it drew.
    pub fn draw_panic_lines(&mut self, lines: &[(&str, Option<u32>)]) -> (r: bool)
        requires
            old(self).lines_fit(lines_view(lines@)),
        ensures
            r == old(self).screen_ready(),
            !r ==> *final(self) == *old(self),
            r ==> {
                let fb0 = old(self).fb()->0;
                let font = old(self).font()->0;
                let fb = final(self).fb()->0;
                &&& final(self).fb() is Some
                &&& fb.wf()
                &&& fb.bytes_per_row == fb0.bytes_per_row
                &&& fb.width == fb0.width
                &&& fb.height == fb0.height
                &&& fb.pixels@ == draw_lines(
                    Seq::new(fb0.pixels@.len(), |i: int| 0u32),
                    fb0.bytes_per_row as int,
                    fb0.width,
                    fb0.height,
                    font.font_bytes(),
                    font.hdr(),
                    lines_view(lines@),
                    0,
                    0,
                ).0
            },
            final(self).font() == old(self).font(),
            final(self).init_bits() == old(self).init_bits(),
            final(self).uart_port() == old(self).uart_port(),
    {
        match (&mut self.basic_fb, &self.basic_fb_psf2_font) {
            (Some(fb), Some(font)) => {
                draw_panic_lines(fb, font, lines);
                true
            },
            _ => false,
        }
    }

    /// Check whether the framebuffer is initialized.
    pub fn is_basic_fb_initialized(&self) -> (r: bool)
        ensures
            r == (self.init_bits() & IS_BASIC_FB_INIT != 0),
    {
        self.is_init & IS_BASIC_FB_INIT != 0
    }

    /// Check whether the font is initialized.
    pub fn is_basic_fb_psf2_font_initialized(&self) -> (r: bool)
        ensures
            r == (self.init_bits() & IS_BASIC_FB_FONT_INIT != 0),
    {
        self.is_init & IS_BASIC_FB_FONT_INIT != 0
    }
}

} // verus!

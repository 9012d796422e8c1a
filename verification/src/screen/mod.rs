//! Early-boot screen output: a linear framebuffer, a PSF2 bitmap font and text drawing.

pub mod framebuffer;
pub mod font;
pub mod text;
pub mod panic_screen;
pub mod panic_code;

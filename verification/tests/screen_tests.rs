use ferrite::screen::panic_code::PanicCode;
use ferrite::screen::font::{
    parse_psf2_header, psf2_valid_bytes, Psf2Font, Psf2Header, BACKGROUND_COLOR, DEFAULT_FOREGROUND_COLOR, MAGIC_NUMBER,
};
use ferrite::screen::framebuffer::BasicFramebuffer;
use ferrite::screen::panic_screen::{
    enter_panic_path, kernel_panic_screen, kernel_panic_serial_text, panic_location_text, panic_message_text, rust_panic_screen,
    rust_panic_serial_text, PANIC_TITLE_COLOR,
    WAS_KERNEL_PANIC_TRIGGERED, WAS_RUST_PANIC_TRIGGERED,
};
use ferrite::screen::text::{draw_string, draw_string_no_mut, print_to_basic_fb, VgaPrintState};
use ferrite::state::simple_state::SimpleKernelState;

/// A PSF2 font of 128 glyphs, 8 pixels wide and 2 high; glyph 'A' has the rows
/// `10000001` and `01000000`, every other glyph is blank.
fn font_bytes() -> Vec<u8> {
    let mut b = Vec::new();
    for v in [MAGIC_NUMBER, 0, 32, 0, 128, 2, 2, 8] {
        b.extend_from_slice(&v.to_le_bytes());
    }
    b.resize(32 + 128 * 2, 0);
    b[32 + 65 * 2] = 0b1000_0001;
    b[32 + 65 * 2 + 1] = 0b0100_0000;
    b
}

#[test]
fn psf2_header_parse() {
    let b = font_bytes();
    let h = Psf2Header::parse(&b);
    assert_eq!(h, Psf2Header { header_size: 32, glyph_count: 128, bytes_per_glyph: 2, height: 2, width: 8 });
    assert_eq!(parse_psf2_header(&b), Some(h));
    let mut bad = b.clone();
    bad[0] = 0;
    assert_eq!(parse_psf2_header(&bad), None);
}

#[test]
fn font_glyph_lookup() {
    let font = Psf2Font::init(font_bytes());
    assert_eq!(font.glyph_height(), 2);
    assert_eq!(font.parse_char('A'), Some(&[0b1000_0001u8, 0b0100_0000][..]));
    assert_eq!(font.parse_char('B'), Some(&[0u8, 0][..]));
    assert_eq!(font.parse_char('é'), None);
}

#[test]
fn framebuffer_new_and_clear() {
    let mut fb = BasicFramebuffer::new(16, 12, 3);
    assert_eq!(fb.pixels.len(), 48);
    assert!(fb.pixels.iter().all(|p| *p == 0));
    fb.pixels[5] = 7;
    fb.clear();
    assert!(fb.pixels.iter().all(|p| *p == 0));
}

#[test]
fn draw_char_paints_glyph_box() {
    let font = Psf2Font::init(font_bytes());
    let mut fb = BasicFramebuffer::new(16, 16, 4);
    for p in fb.pixels.iter_mut() {
        *p = 9;
    }
    let x = font.draw_char(&mut fb, 'A', 4, 1, Some(0xff0000));
    assert_eq!(x, 12);
    // Row 1 (glyph row 0): bits 10000001.
    for col in 0..8 {
        let expected = if col == 0 || col == 7 { 0xff0000 } else { BACKGROUND_COLOR };
        assert_eq!(fb.pixels[16 + 4 + col], expected);
    }
    // Row 2 (glyph row 1): bits 01000000.
    for col in 0..8 {
        let expected = if col == 1 { 0xff0000 } else { BACKGROUND_COLOR };
        assert_eq!(fb.pixels[32 + 4 + col], expected);
    }
    // Outside the glyph box nothing changed.
    assert_eq!(fb.pixels[16 + 3], 9);
    assert_eq!(fb.pixels[16 + 12], 9);
    assert_eq!(fb.pixels[4], 9);
    assert_eq!(fb.pixels[48 + 4], 9);
}

#[test]
fn draw_char_default_color_and_rejections() {
    let font = Psf2Font::init(font_bytes());
    let mut fb = BasicFramebuffer::new(16, 16, 4);
    assert_eq!(font.draw_char(&mut fb, 'A', 0, 0, None), 8);
    assert_eq!(fb.pixels[0], DEFAULT_FOREGROUND_COLOR);
    let before = fb.pixels.clone();
    // Does not fit horizontally, vertically, or has no glyph: nothing drawn, x unchanged.
    assert_eq!(font.draw_char(&mut fb, 'A', 9, 0, None), 9);
    assert_eq!(font.draw_char(&mut fb, 'A', 0, 3, None), 0);
    assert_eq!(font.draw_char(&mut fb, 'é', 0, 0, None), 0);
    assert_eq!(fb.pixels, before);
}

#[test]
fn draw_string_moves_cursor() {
    let font = Psf2Font::init(font_bytes());
    let mut fb = BasicFramebuffer::new(16, 16, 4);
    let mut x = 0;
    let mut y = 0;
    font.draw_string(&mut fb, "AA\nA", &mut x, &mut y, Some(1));
    assert_eq!((x, y), (8, 2));
    assert_eq!(fb.pixels[0], 1);
    assert_eq!(fb.pixels[8], 1);
    assert_eq!(fb.pixels[32], 1);
    let mut x2 = 0;
    let mut y2 = 0;
    draw_string(&mut fb, &font, "AAA", &mut x2, &mut y2, None);
    // The third 'A' does not fit in 16 pixels.
    assert_eq!((x2, y2), (16, 0));
    assert_eq!(draw_string_no_mut(&mut fb, &font, "\nA", 5, 0, None), (8, 2));
    // Below the last glyph row a character no longer fits.
    assert_eq!(draw_string_no_mut(&mut fb, &font, "\n\nA", 5, 0, None), (0, 4));
}

#[test]
fn print_scrolls_at_bottom() {
    let font = Psf2Font::init(font_bytes());
    let mut fb = BasicFramebuffer::new(8, 8, 4);
    let mut state = VgaPrintState { x: 0, y: 0 };
    print_to_basic_fb(&mut state, &mut fb, &font, "A\n");
    assert_eq!(state, VgaPrintState { x: 0, y: 2 });
    assert_eq!(fb.pixels[0], DEFAULT_FOREGROUND_COLOR);
    print_to_basic_fb(&mut state, &mut fb, &font, "A\n");
    // The cursor went below the last row: it stays on it, and the screen moved up one glyph row.
    assert_eq!(state, VgaPrintState { x: 0, y: 2 });
    assert_eq!(fb.pixels[0], DEFAULT_FOREGROUND_COLOR);
    assert_eq!(fb.pixels[8 + 1], DEFAULT_FOREGROUND_COLOR);
    assert!(fb.pixels[16..].iter().all(|p| *p == 0));
}

#[test]
fn psf2_validity_check() {
    let b = font_bytes();
    assert!(psf2_valid_bytes(&b));
    assert!(!psf2_valid_bytes(&b[..31]));
    // The glyph table would end past the file.
    assert!(!psf2_valid_bytes(&b[..b.len() - 1]));
    let mut bad = b.clone();
    bad[3] = 0;
    assert!(!psf2_valid_bytes(&bad));
    // A glyph too small for its rows.
    let mut small = b.clone();
    small[20] = 1;
    assert!(!psf2_valid_bytes(&small));
}

/// The test font with glyph 'K' showing its top left pixel.
fn panic_font() -> Psf2Font {
    let mut b = font_bytes();
    b[32 + 75 * 2] = 0b1000_0000;
    Psf2Font::init(b)
}

fn drawn_by_hand(lines: &[(&str, Option<u32>)]) -> Vec<u32> {
    let font = panic_font();
    let mut fb = BasicFramebuffer::new(64, 64, 40);
    let (mut x, mut y) = (0, 0);
    for (text, color) in lines {
        draw_string(&mut fb, &font, text, &mut x, &mut y, *color);
    }
    fb.pixels
}

#[test]
fn panic_path_is_entered_once() {
    assert_eq!(enter_panic_path(0, WAS_KERNEL_PANIC_TRIGGERED), (true, 1));
    assert_eq!(enter_panic_path(1, WAS_KERNEL_PANIC_TRIGGERED), (false, 1));
    assert_eq!(enter_panic_path(1, WAS_RUST_PANIC_TRIGGERED), (true, 3));
    assert_eq!(enter_panic_path(3, WAS_RUST_PANIC_TRIGGERED), (false, 3));
}

#[test]
fn panic_message_and_location_texts() {
    assert_eq!(panic_message_text(Some("boom")), "Panic Message: boom\n\n");
    assert_eq!(panic_message_text(None), "(No panic message given)\n\n");
    assert_eq!(panic_location_text(Some(("src/main.rs", 1207))), "src/main.rs\n  on line 1207");
    assert_eq!(panic_location_text(Some(("a.rs", 0))), "a.rs\n  on line 0");
    assert_eq!(panic_location_text(Some(("a.rs", u32::MAX))), "a.rs\n  on line 4294967295");
    assert_eq!(panic_location_text(None), "(No panic location given)");
}

#[test]
fn kernel_panic_screen_needs_framebuffer_and_font() {
    let mut st = SimpleKernelState::new();
    assert!(!kernel_panic_screen(&mut st, "OutOfMemory", "Resource", "no frames"));
    st.init_basic_fb(BasicFramebuffer::new(64, 64, 40));
    assert!(!kernel_panic_screen(&mut st, "OutOfMemory", "Resource", "no frames"));
    st.init_basic_fb_psf2_font(panic_font());
    st.basic_fb().pixels[100] = 5;
    assert!(kernel_panic_screen(&mut st, "OutOfMemory", "Resource", "no frames"));
    let expected = drawn_by_hand(&[
        ("Kernel Panic! :(\n", Some(PANIC_TITLE_COLOR)),
        ("Panic Code: ", None),
        ("OutOfMemory", None),
        ("\nPanic Type: ", None),
        ("Resource", None),
        ("\n\n", None),
        ("no frames", None),
    ]);
    assert_eq!(st.basic_fb().pixels, expected);
    assert_eq!(st.basic_fb().pixels[0], PANIC_TITLE_COLOR);
    assert_eq!(st.basic_fb().pixels[100], 0);
}

#[test]
fn rust_panic_screen_draws_message_and_location() {
    let mut st = SimpleKernelState::new();
    st.init_basic_fb(BasicFramebuffer::new(64, 64, 40));
    st.init_basic_fb_psf2_font(panic_font());
    let message = panic_message_text(Some("K"));
    let location = panic_location_text(Some(("k.rs", 3)));
    assert!(rust_panic_screen(&mut st, &message, &location));
    let title = "[!] This panic was triggered by Rust (runtime error or panic!() called)\n\n";
    let expected = drawn_by_hand(&[
        ("Kernel Panic! :(\n", Some(PANIC_TITLE_COLOR)),
        (title, None),
        (&message, None),
        (&location, None),
    ]);
    assert_eq!(st.basic_fb().pixels, expected);
}

#[test]
fn panic_serial_texts() {
    assert_eq!(
        kernel_panic_serial_text("OutOfMemory", "Resource", "no frames"),
        "\nKernel Panic! :(\nPanic Code: OutOfMemory\nPanic Type: Resource\n\nno frames"
    );
    let message = panic_message_text(Some("boom"));
    let location = panic_location_text(Some(("k.rs", 7)));
    assert_eq!(
        rust_panic_serial_text(&message, &location),
        "\nKernel Panic! :(\n[!] This panic was triggered by Rust (runtime error or panic!() called)\n\nPanic Message: boom\n\nk.rs\n  on line 7"
    );
}

#[test]
fn panic_code_texts() {
    assert_eq!(PanicCode::OutOfMemory.as_str(), "OutOfMemory");
    assert_eq!(PanicCode::OutOfMemory.get_error_type_str(), "Resource exhaustion");
    assert_eq!(PanicCode::InitFailure.as_str(), "InitFailure");
    assert_eq!(PanicCode::InitFailure.get_error_type_str(), "Initialization");
}

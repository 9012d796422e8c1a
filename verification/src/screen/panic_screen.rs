//! The screens shown when the kernel panics, and the guard that keeps a panic path from being
//! entered twice.

use crate::screen::font::{draw_string_upto, fg_color, lemma_draw_string_cursor, Psf2Font, Psf2Header};
use crate::screen::framebuffer::BasicFramebuffer;
use crate::screen::text::draw_string;
use crate::state::simple_state::SimpleKernelState;
use vstd::prelude::*;

verus! {

/// Color of the first line of a panic screen.
pub const PANIC_TITLE_COLOR: u32 = 0x00FF0000;

/// Bit of the panic state that records that an explicit kernel panic was entered.
pub const WAS_KERNEL_PANIC_TRIGGERED: u8 = 1;

/// Bit of the panic state that records that a language-level panic was entered.
pub const WAS_RUST_PANIC_TRIGGERED: u8 = 2;

/// Whether a panic path may go on, given the panic state bits and the bit of that path: it
/// goes on only the first time it is entered.
pub open spec fn panic_goes_on(bits: u8, path_bit: u8) -> bool {
    bits & path_bit == 0
}

/// Enter a panic path: returns whether it goes on, and the new panic state bits, which
/// record that the path was entered.
pub fn enter_panic_path(bits: u8, path_bit: u8) -> (r: (bool, u8))
    ensures
        r.0 == panic_goes_on(bits, path_bit),
        r.1 == bits | path_bit,
{
    (bits & path_bit == 0, bits | path_bit)
}

/// A panic path goes on at most once: after it was entered, entering it again does not go
/// on, whatever the other path did in between.
pub proof fn law_panic_path_once(bits: u8, path_bit: u8, other_bit: u8)
    requires
        path_bit != 0,
    ensures
        !panic_goes_on(bits | path_bit, path_bit),
        !panic_goes_on(bits | path_bit | other_bit, path_bit),
{
    assert(path_bit != 0 ==> (bits | path_bit) & path_bit != 0 && (bits | path_bit | other_bit)
        & path_bit != 0) by (bit_vector);
}

/// The texts and colors of the lines.
pub open spec fn lines_view(lines: Seq<(&str, Option<u32>)>) -> Seq<(Seq<char>, Option<u32>)> {
    lines.map_values(|l: (&str, Option<u32>)| (l.0@, l.1))
}

/// The number of characters of all lines together.
pub open spec fn total_chars(lines: Seq<(Seq<char>, Option<u32>)>) -> int
    decreases lines.len(),
{
    if lines.len() == 0 {
        0
    } else {
        total_chars(lines.drop_last()) + lines.last().0.len()
    }
}

/// The pixels and the cursor after each line was drawn in turn from the cursor (`x`, `y`).
pub open spec fn draw_lines(
    px: Seq<u32>,
    stride: int,
    fb_width: u64,
    fb_height: u64,
    b: Seq<u8>,
    h: Psf2Header,
    lines: Seq<(Seq<char>, Option<u32>)>,
    x: int,
    y: int,
) -> (Seq<u32>, int, int)
    decreases lines.len(),
{
    if lines.len() == 0 {
        (px, x, y)
    } else {
        let p = draw_lines(px, stride, fb_width, fb_height, b, h, lines.drop_last(), x, y);
        let l = lines.last();
        draw_string_upto(
            p.0,
            stride,
            fb_width,
            fb_height,
            b,
            h,
            l.0,
            p.1,
            p.2,
            fg_color(l.1),
            l.0.len() as int,
        )
    }
}

/// A prefix of the lines has no more characters than all of them.
proof fn lemma_total_chars_prefix(lines: Seq<(Seq<char>, Option<u32>)>, i: int)
    requires
        0 <= i <= lines.len(),
    ensures
        0 <= total_chars(lines.take(i)) <= total_chars(lines),
    decreases lines.len(),
{
    if lines.len() > 0 {
        if i == lines.len() {
            assert(lines.take(i) =~= lines);
            lemma_total_chars_prefix(lines.drop_last(), i - 1);
            assert(lines.drop_last().take(i - 1) =~= lines.drop_last());
        } else {
            lemma_total_chars_prefix(lines.drop_last(), i);
            assert(lines.drop_last().take(i) =~= lines.take(i));
        }
    }
}

/// Clear the framebuffer and draw `lines` one after another from its top left corner.
pub fn draw_panic_lines(fb: &mut BasicFramebuffer, font: &Psf2Font, lines: &[(&str, Option<u32>)])
    requires
        font.wf(),
        old(fb).wf(),
        old(fb).width + font.hdr().width <= usize::MAX,
        (total_chars(lines_view(lines@)) + lines@.len()) * font.hdr().height <= usize::MAX,
    ensures
        final(fb).wf(),
        final(fb).bytes_per_row == old(fb).bytes_per_row,
        final(fb).width == old(fb).width,
        final(fb).height == old(fb).height,
        final(fb).pixels@ == draw_lines(
            Seq::new(old(fb).pixels@.len(), |i: int| 0u32),
            old(fb).bytes_per_row as int,
            old(fb).width,
            old(fb).height,
            font.font_bytes(),
            font.hdr(),
            lines_view(lines@),
            0,
            0,
        ).0,
{
    fb.clear();
    let ghost px0 = fb.pixels@;
    let ghost all = lines_view(lines@);
    let ghost hh = font.hdr().height as int;
    let mut x: usize = 0;
    let mut y: usize = 0;
    let n = lines.len();
    let mut i: usize = 0;
    while i < n
        invariant
            font.wf(),
            fb.wf(),
            fb.bytes_per_row == old(fb).bytes_per_row,
            fb.width == old(fb).width,
            fb.height == old(fb).height,
            px0 == Seq::new(old(fb).pixels@.len(), |j: int| 0u32),
            all == lines_view(lines@),
            hh == font.hdr().height,
            n == lines@.len(),
            0 <= i <= n,
            fb.width + font.hdr().width <= usize::MAX,
            (total_chars(all) + n) * hh <= usize::MAX,
            y <= total_chars(all.take(i as int)) * hh,
            x == 0 || x <= fb.width,
            (fb.pixels@, x as int, y as int) == draw_lines(
                px0,
                fb.bytes_per_row as int,
                fb.width,
                fb.height,
                font.font_bytes(),
                font.hdr(),
                all.take(i as int),
                0,
                0,
            ),
        decreases n - i,
    {
        let (text, color) = lines[i];
        let ghost len = text@.len() as int;
        let ghost before = total_chars(all.take(i as int));
        proof {
            assert(all.take(i as int + 1).drop_last() =~= all.take(i as int));
            assert(all.take(i as int + 1).last() == (text@, color));
            lemma_total_chars_prefix(all, i as int + 1);
            assert(before + len <= total_chars(all));
            assert(y + (len + 1) * hh <= (total_chars(all) + n) * hh) by (nonlinear_arith)
                requires
                    y <= before * hh,
                    before + len <= total_chars(all),
                    i + 1 <= n,
                    hh >= 0,
            ;
            lemma_draw_string_cursor(
                fb.pixels@,
                fb.bytes_per_row as int,
                fb.width,
                fb.height,
                font.font_bytes(),
                font.hdr(),
                text@,
                x as int,
                y as int,
                fg_color(color),
                len,
            );
        }
        let ghost y_old = y as int;
        draw_string(fb, font, text, &mut x, &mut y, color);
        proof {
            assert(y <= (before + len) * hh) by (nonlinear_arith)
                requires
                    y <= y_old + len * hh,
                    y_old <= before * hh,
                    hh >= 0,
            ;
            assert(total_chars(all.take(i as int + 1)) == before + len);
        }
        i += 1;
    }
    proof {
        assert(all.take(n as int) =~= all);
    }
}

/// The lines of the screen of an explicit kernel panic: the title in red, then the panic
/// code, its error type and the message.
pub open spec fn kernel_panic_lines(panic_code: Seq<char>, error_type: Seq<char>, message: Seq<char>) -> Seq<(Seq<char>, Option<u32>)> {
    seq![
        ("Kernel Panic! :(\n"@, Some(PANIC_TITLE_COLOR)),
        ("Panic Code: "@, None),
        (panic_code, None),
        ("\nPanic Type: "@, None),
        (error_type, None),
        ("\n\n"@, None),
        (message, None),
    ]
}

/// Show the screen of an explicit kernel panic, where the framebuffer and the font are both
/// initialized; returns whether it was shown.
pub fn kernel_panic_screen(
    state: &mut SimpleKernelState,
    panic_code: &str,
    error_type: &str,
    message: &str,
) -> (r: bool)
    requires
        old(state).lines_fit(kernel_panic_lines(panic_code@, error_type@, message@)),
    ensures
        r == old(state).screen_ready(),
        !r ==> *final(state) == *old(state),
        r ==> {
            let fb0 = old(state).fb()->0;
            let font = old(state).font()->0;
            let fb = final(state).fb()->0;
            &&& final(state).fb() is Some
            &&& fb.wf()
            &&& fb.bytes_per_row == fb0.bytes_per_row
            &&& fb.width == fb0.width
            &&& fb.height == fb0.height
            &&& fb.pixels@ == draw_lines(
                Seq::new(fb0.pixels@.len(), |i: int| 0u32),
                fb0.bytes_per_row as int,
                fb0.width,
                fb0.height,
                font.font_bytes(),
                font.hdr(),
                kernel_panic_lines(panic_code@, error_type@, message@),
                0,
                0,
            ).0
        },
        final(state).font() == old(state).font(),
        final(state).init_bits() == old(state).init_bits(),
        final(state).uart_port() == old(state).uart_port(),
{
    let lines = [
        ("Kernel Panic! :(\n", Some(PANIC_TITLE_COLOR)),
        ("Panic Code: ", None),
        (panic_code, None),
        ("\nPanic Type: ", None),
        (error_type, None),
        ("\n\n", None),
        (message, None),
    ];
    assert(lines_view(lines@) =~= kernel_panic_lines(panic_code@, error_type@, message@));
    state.draw_panic_lines(&lines)
}

/// The decimal digit `d`.
pub open spec fn digit_char(d: nat) -> char {
    ((d + 48) as u8) as char
}

/// The decimal representation of `n`, without leading zeros.
pub open spec fn decimal(n: nat) -> Seq<char>
    decreases n,
{
    if n < 10 {
        seq![digit_char(n)]
    } else {
        decimal(n / 10).push(digit_char(n % 10))
    }
}

/// The one-character string of the decimal digit `d`.
fn digit_str(d: u32) -> (r: &'static str)
    requires
        d < 10,
    ensures
        r@ == seq![digit_char(d as nat)],
{
    proof {
        reveal_strlit("0");
        reveal_strlit("1");
        reveal_strlit("2");
        reveal_strlit("3");
        reveal_strlit("4");
        reveal_strlit("5");
        reveal_strlit("6");
        reveal_strlit("7");
        reveal_strlit("8");
        reveal_strlit("9");
    }
    let r = match d {
        0 => "0",
        1 => "1",
        2 => "2",
        3 => "3",
        4 => "4",
        5 => "5",
        6 => "6",
        7 => "7",
        8 => "8",
        _ => "9",
    };
    assert(r@ =~= seq![digit_char(d as nat)]);
    r
}

/// Append the decimal representation of `n` to `s`.
fn append_decimal(s: &mut String, n: u32)
    ensures
        final(s)@ == old(s)@ + decimal(n as nat),
    decreases n,
{
    if n >= 10 {
        append_decimal(s, n / 10);
    }
    s.append(digit_str(n % 10));
    proof {
        if n >= 10 {
            assert(decimal(n as nat) == decimal((n / 10) as nat).push(digit_char((n % 10) as nat)));
        }
    }
    assert(s@ =~= old(s)@ + decimal(n as nat));
}

/// The text of the panic message line of a language-level panic.
pub open spec fn message_text(message: Option<Seq<char>>) -> Seq<char> {
    match message {
        Some(m) => "Panic Message: "@ + m + "\n\n"@,
        None => "(No panic message given)\n\n"@,
    }
}

/// The text of the panic location line of a language-level panic.
pub open spec fn location_text(location: Option<(Seq<char>, u32)>) -> Seq<char> {
    match location {
        Some((file, line)) => file + "\n  on line "@ + decimal(line as nat),
        None => "(No panic location given)"@,
    }
}

/// The panic message line of a language-level panic: the message, where the panic has one
/// as a plain string.
pub fn panic_message_text(message: Option<&str>) -> (r: String)
    ensures
        r@ == message_text(
            match message {
                Some(m) => Some(m@),
                None => None,
            },
        ),
{
    match message {
        Some(m) => {
            let mut s = String::from_str("Panic Message: ");
            s.append(m);
            s.append("\n\n");
            s
        },
        None => String::from_str("(No panic message given)\n\n"),
    }
}

/// The panic location line of a language-level panic: the file and the line number, where
/// the panic has a location.
pub fn panic_location_text(location: Option<(&str, u32)>) -> (r: String)
    ensures
        r@ == location_text(
            match location {
                Some((file, line)) => Some((file@, line)),
                None => None,
            },
        ),
{
    match location {
        Some((file, line)) => {
            let mut s = String::from_str(file);
            s.append("\n  on line ");
            append_decimal(&mut s, line);
            s
        },
        None => String::from_str("(No panic location given)"),
    }
}

/// The lines of the screen of a language-level panic: the title in red, a note on where the
/// panic came from, then the message and the location lines.
pub open spec fn rust_panic_lines(message: Seq<char>, location: Seq<char>) -> Seq<(Seq<char>, Option<u32>)> {
    seq![
        ("Kernel Panic! :(\n"@, Some(PANIC_TITLE_COLOR)),
        ("[!] This panic was triggered by Rust (runtime error or panic!() called)\n\n"@, None),
        (message, None),
        (location, None),
    ]
}

/// Show the screen of a language-level panic, where the framebuffer and the font are both
/// initialized; returns whether it was shown.
pub fn rust_panic_screen(state: &mut SimpleKernelState, message: &str, location: &str) -> (r: bool)
    requires
        old(state).lines_fit(rust_panic_lines(message@, location@)),
    ensures
        r == old(state).screen_ready(),
        !r ==> *final(state) == *old(state),
        r ==> {
            let fb0 = old(state).fb()->0;
            let font = old(state).font()->0;
            let fb = final(state).fb()->0;
            &&& final(state).fb() is Some
            &&& fb.wf()
            &&& fb.bytes_per_row == fb0.bytes_per_row
            &&& fb.width == fb0.width
            &&& fb.height == fb0.height
            &&& fb.pixels@ == draw_lines(
                Seq::new(fb0.pixels@.len(), |i: int| 0u32),
                fb0.bytes_per_row as int,
                fb0.width,
                fb0.height,
                font.font_bytes(),
                font.hdr(),
                rust_panic_lines(message@, location@),
                0,
                0,
            ).0
        },
        final(state).font() == old(state).font(),
        final(state).init_bits() == old(state).init_bits(),
        final(state).uart_port() == old(state).uart_port(),
{
    let lines = [
        ("Kernel Panic! :(\n", Some(PANIC_TITLE_COLOR)),
        ("[!] This panic was triggered by Rust (runtime error or panic!() called)\n\n", None),
        (message, None),
        (location, None),
    ];
    assert(lines_view(lines@) =~= rust_panic_lines(message@, location@));
    state.draw_panic_lines(&lines)
}

/// The serial text of an explicit kernel panic: the title, the panic code, its error type
/// and the message.
pub open spec fn kernel_panic_serial(panic_code: Seq<char>, error_type: Seq<char>, message: Seq<char>) -> Seq<char> {
    "\nKernel Panic! :(\n"@ + "Panic Code: "@ + panic_code + "\nPanic Type: "@ + error_type + "\n\n"@
        + message
}

/// The text an explicit kernel panic writes to the serial port.
pub fn kernel_panic_serial_text(panic_code: &str, error_type: &str, message: &str) -> (r: String)
    ensures
        r@ == kernel_panic_serial(panic_code@, error_type@, message@),
{
    let mut s = String::from_str("\nKernel Panic! :(\n");
    s.append("Panic Code: ");
    s.append(panic_code);
    s.append("\nPanic Type: ");
    s.append(error_type);
    s.append("\n\n");
    s.append(message);
    s
}

/// The serial text of a language-level panic: the title, the note on where it came from,
/// then the message and the location lines.
pub open spec fn rust_panic_serial(message: Seq<char>, location: Seq<char>) -> Seq<char> {
    "\nKernel Panic! :(\n"@ + "[!] This panic was triggered by Rust (runtime error or panic!() called)\n\n"@
        + message + location
}

/// The text a language-level panic writes to the serial port.
pub fn rust_panic_serial_text(message: &str, location: &str) -> (r: String)
    ensures
        r@ == rust_panic_serial(message@, location@),
{
    let mut s = String::from_str("\nKernel Panic! :(\n");
    s.append("[!] This panic was triggered by Rust (runtime error or panic!() called)\n\n");
    s.append(message);
    s.append(location);
    s
}

} // verus!

use kboot::vga_buffer;
use kboot::vga_video_buffer::{Colour, PrintableChar, VgaBuffer};

fn blank(c: Colour, b: Colour) -> VgaBuffer {
    VgaBuffer::new(c, b, vec![PrintableChar::default(); 2000])
}

fn row_text(v: &VgaBuffer, row: usize) -> Vec<u8> {
    (0..80).map(|c| v.cell(row, c).char).collect()
}

#[test]
fn printable_char_packs_colours() {
    let c = PrintableChar::new(b'x', 0x0F, 0x01);
    assert_eq!(c.char, b'x');
    assert_eq!(c.colour, 0x1F);
    assert_eq!(PrintableChar::new(b'a', 14, 4).colour, 0x4E);
    assert_eq!(PrintableChar::default(), PrintableChar { char: b' ', colour: 0 });
}

#[test]
fn colour_codes() {
    assert_eq!(Colour::Black.code(), 0);
    assert_eq!(Colour::Blue.code(), 1);
    assert_eq!(Colour::LightGray.code(), 7);
    assert_eq!(Colour::Yellow.code(), 14);
    assert_eq!(Colour::White.code(), 15);
}

#[test]
fn new_writer_keeps_the_screen() {
    let screen: Vec<PrintableChar> =
        (0..2000).map(|i| PrintableChar { char: (i % 251) as u8, colour: (i % 7) as u8 }).collect();
    let v = VgaBuffer::new(Colour::White, Colour::Black, screen.clone());
    assert_eq!(v.current_column(), 0);
    for r in 0..25 {
        for c in 0..80 {
            assert_eq!(v.cell(r, c), screen[r * 80 + c]);
        }
    }
}

#[test]
fn earlier_screen_text_scrolls_up() {
    let mut screen = vec![PrintableChar::default(); 2000];
    screen[24 * 80] = PrintableChar { char: b'D', colour: 0x0F };
    let mut v = VgaBuffer::new(Colour::White, Colour::Black, screen);
    v.print_string("\n");
    assert_eq!(v.cell(23, 0), PrintableChar { char: b'D', colour: 0x0F });
    assert_eq!(v.cell(24, 0), PrintableChar::default());
}

#[test]
fn text_goes_on_the_bottom_row() {
    let mut v = blank(Colour::White, Colour::Black);
    v.print_string("AB");
    assert_eq!(v.cell(24, 0), PrintableChar { char: b'A', colour: 0x0F });
    assert_eq!(v.cell(24, 1), PrintableChar { char: b'B', colour: 0x0F });
    assert_eq!(v.cell(24, 2), PrintableChar { char: b' ', colour: 0 });
    assert_eq!(v.current_column(), 2);
}

#[test]
fn change_colour_affects_later_text() {
    let mut v = blank(Colour::White, Colour::Black);
    v.print_string("a");
    v.change_colour(Colour::Yellow, Colour::Blue);
    v.print_string("b");
    assert_eq!(v.cell(24, 0).colour, 0x0F);
    assert_eq!(v.cell(24, 1).colour, 0x1E);
}

#[test]
fn new_line_scrolls_up() {
    let mut v = blank(Colour::Green, Colour::Black);
    v.print_string("one\ntwo");
    assert_eq!(&row_text(&v, 23)[..4], b"one ");
    assert_eq!(&row_text(&v, 24)[..4], b"two ");
    assert_eq!(v.current_column(), 3);
    v.print_string("\n");
    assert_eq!(&row_text(&v, 22)[..3], b"one");
    assert_eq!(&row_text(&v, 23)[..3], b"two");
    assert!(row_text(&v, 24).iter().all(|&b| b == b' '));
    assert_eq!(v.current_column(), 0);
}

#[test]
fn full_row_scrolls_then_prints_next_char() {
    let mut v = blank(Colour::White, Colour::Black);
    let line: String = std::iter::repeat('x').take(80).collect();
    v.print_string(&line);
    assert_eq!(v.current_column(), 80);
    v.print_string("yz");
    // 'y' found the row full: it started a new line and was written there
    assert!(row_text(&v, 23).iter().all(|&b| b == b'x'));
    assert_eq!(v.cell(24, 0), PrintableChar { char: b'y', colour: 0x0F });
    assert_eq!(v.cell(24, 1).char, b'z');
    assert_eq!(v.cell(24, 2).char, b' ');
    assert_eq!(v.current_column(), 2);
}

#[test]
fn top_row_is_lost_after_25_lines() {
    let mut v = blank(Colour::White, Colour::Black);
    v.print_string("first\n");
    for _ in 0..24 {
        v.print_string("\n");
    }
    for r in 0..25 {
        assert!(row_text(&v, r).iter().all(|&b| b == b' '));
    }
}

#[test]
fn printing_in_two_parts_is_printing_the_whole() {
    let mut a = blank(Colour::Red, Colour::White);
    let mut b = blank(Colour::Red, Colour::White);
    a.print_string("hello\nworld");
    b.print_string("hel");
    b.print_string("lo\nworld");
    for r in 0..25 {
        for c in 0..80 {
            assert_eq!(a.cell(r, c), b.cell(r, c));
        }
    }
    assert_eq!(a.current_column(), b.current_column());
}

#[test]
fn non_ascii_char_keeps_low_byte() {
    let mut v = blank(Colour::White, Colour::Black);
    v.print_string("é");
    assert_eq!(v.cell(24, 0).char, 0xE9);
}

#[test]
fn other_screen_blank_cell_is_digit_three() {
    let mut v = vga_buffer::VgaBuffer::new(
        vga_buffer::Colour::White,
        vga_buffer::Colour::Black,
        vec![vga_buffer::PrintableChar::default(); 2000],
    );
    assert_eq!(v.cell(0, 0), vga_buffer::PrintableChar { char: b'3', colour: 0 });
    v.print_string("ok\n");
    assert_eq!(v.cell(23, 0).char, b'o');
    assert_eq!(v.cell(24, 0), vga_buffer::PrintableChar::default());
    assert_eq!(v.cell(24, 0).char, b'3');
    v.change_colour(vga_buffer::Colour::Cyan, vga_buffer::Colour::Red);
    v.print_string("c");
    assert_eq!(v.cell(24, 0).colour, 0x43);
}

#[test]
fn attribute_keeps_both_colours() {
    for fg in 0..16u8 {
        for bg in 0..16u8 {
            let c = PrintableChar::new(b'.', fg, bg);
            assert_eq!(c.colour & 0x0F, fg);
            assert_eq!(c.colour >> 4, bg);
        }
    }
}

#[test]
fn column_never_passes_the_row_end() {
    let mut v = blank(Colour::White, Colour::Black);
    let text: String = std::iter::repeat('w').take(250).collect();
    v.print_string(&text);
    assert!(v.current_column() <= 80);
}

//! Text-mode VGA screen: a 80x25 grid of character cells where text is
//! always written on the bottom row and a new line scrolls the screen up.
//!
//! The screen is held as a flat sequence of cells, row-major, so that the
//! cell of row `r` and column `c` is at index `r * VGA_BUFFER_WIDTH + c`.
//! Copying the cells to the memory-mapped buffer at `VGA_BUFFER_ADDR` is
//! left to the caller.
use vstd::prelude::*;

verus! {

/// Number of character cells in a row.
pub const VGA_BUFFER_WIDTH: usize = 80;

/// Number of rows on the screen.
pub const VGA_BUFFER_HEIGHT: usize = 25;

/// Number of character cells on the screen.
pub const VGA_BUFFER_CELLS: usize = 2000;

/// Index of the first cell of the bottom row.
pub const VGA_LAST_ROW_START: usize = 1920;

/// Physical address of the text-mode buffer.
pub const VGA_BUFFER_ADDR: usize = 0xb8000;

/// A colour of the VGA text palette.
#[derive(Clone, Copy, Debug, PartialEq, Eq, Structural)]
pub enum Colour {
    Black,
    Blue,
    Green,
    Cyan,
    Red,
    Magenta,
    Brown,
    LightGray,
    DarkGray,
    LightBlue,
    LightGreen,
    LightCyan,
    LightRed,
    LightMagenta,
    Yellow,
    White,
}

/// The palette index of a colour: its position in the declaration, from 0 to 15.
pub open spec fn colour_code(c: Colour) -> u8 {
    match c {
        Colour::Black => 0,
        Colour::Blue => 1,
        Colour::Green => 2,
        Colour::Cyan => 3,
        Colour::Red => 4,
        Colour::Magenta => 5,
        Colour::Brown => 6,
        Colour::LightGray => 7,
        Colour::DarkGray => 8,
        Colour::LightBlue => 9,
        Colour::LightGreen => 10,
        Colour::LightCyan => 11,
        Colour::LightRed => 12,
        Colour::LightMagenta => 13,
        Colour::Yellow => 14,
        Colour::White => 15,
    }
}

impl Colour {
    /// The palette index of this colour.
    pub fn code(self) -> (r: u8)
        ensures
            r == colour_code(self),
            r < 16,
    {
        match self {
            Colour::Black => 0,
            Colour::Blue => 1,
            Colour::Green => 2,
            Colour::Cyan => 3,
            Colour::Red => 4,
            Colour::Magenta => 5,
            Colour::Brown => 6,
            Colour::LightGray => 7,
            Colour::DarkGray => 8,
            Colour::LightBlue => 9,
            Colour::LightGreen => 10,
            Colour::LightCyan => 11,
            Colour::LightRed => 12,
            Colour::LightMagenta => 13,
            Colour::Yellow => 14,
            Colour::White => 15,
        }
    }
}

/// One cell of the text buffer: a character byte and its attribute byte.
#[derive(Clone, Copy, Debug, PartialEq, Eq, Structural)]
pub struct PrintableChar {
    pub char: u8,
    pub colour: u8,
}

/// The attribute byte of a cell: background in the high nibble, foreground in the low one.
pub open spec fn attribute(foreground: u8, background: u8) -> u8 {
    ((background << 4u8) | foreground) as u8
}

/// For palette indices, the attribute byte keeps both colours: the low
/// nibble is the foreground and the high nibble the background.
pub proof fn lemma_attribute_decomposes(foreground: u8, background: u8)
    requires
        foreground < 16,
        background < 16,
    ensures
        attribute(foreground, background) & 0x0f == foreground,
        attribute(foreground, background) >> 4u8 == background,
        attribute(foreground, background) == background * 16 + foreground,
{
    assert(((background << 4u8) | foreground) as u8 & 0x0f == foreground) by (bit_vector)
        requires
            foreground < 16,
            background < 16,
    ;
    assert(((background << 4u8) | foreground) as u8 >> 4u8 == background) by (bit_vector)
        requires
            foreground < 16,
            background < 16,
    ;
    assert(((background << 4u8) | foreground) as u8 == background * 16 + foreground) by (bit_vector)
        requires
            foreground < 16,
            background < 16,
    ;
}

/// The cell that an empty position holds.
pub open spec fn blank_cell() -> PrintableChar {
    PrintableChar { char: 0x20, colour: 0 }
}

impl PrintableChar {
    /// A cell showing `char` in the given foreground and background palette indices.
    pub fn new(char: u8, foreground: u8, background: u8) -> (r: Self)
        ensures
            r.char == char,
            r.colour == attribute(foreground, background),
    {
        PrintableChar { char, colour: (background << 4) | foreground }
    }
}

impl Default for PrintableChar {
    /// A space on black.
    fn default() -> (r: Self)
        ensures
            r == blank_cell(),
    {
        Self { char: 0x20, colour: 0 }
    }
}

/// The cell that printing `c` in the given colours writes.
pub open spec fn printed_cell(c: char, fg: Colour, bg: Colour) -> PrintableChar {
    PrintableChar { char: c as u8, colour: attribute(colour_code(fg), colour_code(bg)) }
}

/// The screen after a new line: every row moves up by one, the top row is
/// lost and the bottom row is blank.
pub open spec fn scrolled(cells: Seq<PrintableChar>) -> Seq<PrintableChar> {
    Seq::new(
        VGA_BUFFER_CELLS as nat,
        |i: int|
            if i < VGA_LAST_ROW_START {
                cells[i + VGA_BUFFER_WIDTH]
            } else {
                blank_cell()
            },
    )
}

/// Column and cells after printing one character from column `col`.
///
/// A line feed starts a new line. A character that finds the bottom row
/// full starts a new line and is then written at its first column.
pub open spec fn print_char_step(
    col: int,
    cells: Seq<PrintableChar>,
    fg: Colour,
    bg: Colour,
    c: char,
) -> (int, Seq<PrintableChar>) {
    if c == '\n' {
        (0, scrolled(cells))
    } else if col >= VGA_BUFFER_WIDTH {
        (1, scrolled(cells).update(VGA_LAST_ROW_START as int, printed_cell(c, fg, bg)))
    } else {
        (col + 1, cells.update(VGA_LAST_ROW_START + col, printed_cell(c, fg, bg)))
    }
}

/// Column and cells after printing the characters of `s` in order.
pub open spec fn print_chars(
    col: int,
    cells: Seq<PrintableChar>,
    fg: Colour,
    bg: Colour,
    s: Seq<char>,
) -> (int, Seq<PrintableChar>)
    decreases s.len(),
{
    if s.len() == 0 {
        (col, cells)
    } else {
        let next = print_char_step(col, cells, fg, bg, s[0]);
        print_chars(next.0, next.1, fg, bg, s.drop_first())
    }
}

/// Printing `s1 + s2` is printing `s1`, then printing `s2` from where `s1` left off.
pub proof fn lemma_print_chars_concat(
    col: int,
    cells: Seq<PrintableChar>,
    fg: Colour,
    bg: Colour,
    s1: Seq<char>,
    s2: Seq<char>,
)
    ensures
        print_chars(col, cells, fg, bg, s1 + s2) == ({
            let mid = print_chars(col, cells, fg, bg, s1);
            print_chars(mid.0, mid.1, fg, bg, s2)
        }),
    decreases s1.len(),
{
    if s1.len() == 0 {
        assert(s1 + s2 =~= s2);
    } else {
        let next = print_char_step(col, cells, fg, bg, s1[0]);
        assert((s1 + s2).drop_first() =~= s1.drop_first() + s2);
        assert((s1 + s2)[0] == s1[0]);
        lemma_print_chars_concat(next.0, next.1, fg, bg, s1.drop_first(), s2);
    }
}

/// The palette index of each colour is its place in the standard 16-colour
/// text palette: Black 0, Blue 1, Green 2, Cyan 3, Red 4, Magenta 5,
/// Brown 6, LightGray 7, DarkGray 8, LightBlue 9, LightGreen 10,
/// LightCyan 11, LightRed 12, LightMagenta 13, Yellow 14, White 15.
pub proof fn lemma_colour_palette()
    ensures
        colour_code(Colour::Black) == 0,
        colour_code(Colour::Blue) == 1,
        colour_code(Colour::Green) == 2,
        colour_code(Colour::Cyan) == 3,
        colour_code(Colour::Red) == 4,
        colour_code(Colour::Magenta) == 5,
        colour_code(Colour::Brown) == 6,
        colour_code(Colour::LightGray) == 7,
        colour_code(Colour::DarkGray) == 8,
        colour_code(Colour::LightBlue) == 9,
        colour_code(Colour::LightGreen) == 10,
        colour_code(Colour::LightCyan) == 11,
        colour_code(Colour::LightRed) == 12,
        colour_code(Colour::LightMagenta) == 13,
        colour_code(Colour::Yellow) == 14,
        colour_code(Colour::White) == 15,
{
}

/// The palette index is built from the colour's IRGB bits: blue is bit 0,
/// green bit 1, red bit 2, and the light variant of a colour sets bit 3; two
/// different colours never share an index.
pub proof fn lemma_colour_bits(a: Colour, b: Colour)
    ensures
        colour_code(a) < 16,
        a != b ==> colour_code(a) != colour_code(b),
        colour_code(Colour::Cyan) == colour_code(Colour::Blue) | colour_code(Colour::Green),
        colour_code(Colour::Magenta) == colour_code(Colour::Blue) | colour_code(Colour::Red),
        colour_code(Colour::Brown) == colour_code(Colour::Green) | colour_code(Colour::Red),
        colour_code(Colour::Blue) == 1 && colour_code(Colour::Green) == 2 && colour_code(Colour::Red) == 4,
        colour_code(Colour::DarkGray) == colour_code(Colour::Black) + 8,
        colour_code(Colour::LightBlue) == colour_code(Colour::Blue) + 8,
        colour_code(Colour::LightGreen) == colour_code(Colour::Green) + 8,
        colour_code(Colour::LightCyan) == colour_code(Colour::Cyan) + 8,
        colour_code(Colour::LightRed) == colour_code(Colour::Red) + 8,
        colour_code(Colour::LightMagenta) == colour_code(Colour::Magenta) + 8,
        colour_code(Colour::Yellow) == colour_code(Colour::Brown) + 8,
        colour_code(Colour::White) == colour_code(Colour::LightGray) + 8,
{
    assert(1u8 | 2u8 == 3u8) by (bit_vector);
    assert(1u8 | 4u8 == 5u8) by (bit_vector);
    assert(2u8 | 4u8 == 6u8) by (bit_vector);
}

/// A line feed moves every row up by one: each cell of rows 0-23 takes the
/// cell one row below it, the old top row is lost, the bottom row becomes
/// spaces on black, and the column returns to 0.
pub proof fn lemma_line_feed_scrolls(col: int, cells: Seq<PrintableChar>, fg: Colour, bg: Colour)
    requires
        cells.len() == 2000,
    ensures
        ({
            let after = print_chars(col, cells, fg, bg, seq!['\n']);
            &&& after.0 == 0
            &&& after.1.len() == 2000
            &&& forall|i: int| 0 <= i < 1920 ==> after.1[i] == cells[i + 80]
            &&& forall|i: int| 1920 <= i < 2000 ==> after.1[i] == PrintableChar { char: 0x20, colour: 0 }
        }),
{
    reveal_with_fuel(print_chars, 2);
    assert(seq!['\n'][0] == '\n');
    assert(seq!['\n'].drop_first() =~= Seq::<char>::empty());
}

/// A character other than a line feed, printed at column `col` of a row with
/// room, goes to cell `col` of the bottom row as its low byte with attribute
/// `16 * background + foreground`; no other cell changes and the column
/// moves on by one. On a full row the screen first moves up by one row and
/// the character goes to the first cell of the bottom row.
pub proof fn lemma_char_is_written(col: int, cells: Seq<PrintableChar>, fg: Colour, bg: Colour, c: char)
    requires
        cells.len() == 2000,
        0 <= col <= 80,
        c != '\n',
    ensures
        ({
            let after = print_chars(col, cells, fg, bg, seq![c]);
            let written = PrintableChar {
                char: c as u8,
                colour: (16 * colour_code(bg) + colour_code(fg)) as u8,
            };
            &&& after.1.len() == 2000
            &&& col < 80 ==> {
                &&& after.0 == col + 1
                &&& after.1[1920 + col] == written
                &&& forall|i: int| 0 <= i < 2000 && i != 1920 + col ==> after.1[i] == cells[i]
            }
            &&& col == 80 ==> {
                &&& after.0 == 1
                &&& after.1[1920] == written
                &&& forall|i: int| 0 <= i < 1920 ==> after.1[i] == cells[i + 80]
                &&& forall|i: int| 1920 < i < 2000 ==> after.1[i] == PrintableChar { char: 0x20, colour: 0 }
            }
        }),
{
    reveal_with_fuel(print_chars, 2);
    assert(seq![c][0] == c);
    assert(seq![c].drop_first() =~= Seq::<char>::empty());
    lemma_colour_bits(fg, bg);
    lemma_colour_bits(bg, fg);
    lemma_attribute_decomposes(colour_code(fg), colour_code(bg));
}

/// Printing never leaves the column past the end of the row, and the screen
/// keeps its size.
pub proof fn lemma_print_chars_bounds(
    col: int,
    cells: Seq<PrintableChar>,
    fg: Colour,
    bg: Colour,
    s: Seq<char>,
)
    requires
        0 <= col <= VGA_BUFFER_WIDTH,
        cells.len() == VGA_BUFFER_CELLS,
    ensures
        0 <= print_chars(col, cells, fg, bg, s).0 <= VGA_BUFFER_WIDTH,
        print_chars(col, cells, fg, bg, s).1.len() == VGA_BUFFER_CELLS,
    decreases s.len(),
{
    if s.len() > 0 {
        let next = print_char_step(col, cells, fg, bg, s[0]);
        lemma_print_chars_bounds(next.0, next.1, fg, bg, s.drop_first());
    }
}

/// The text screen and the state of the writer: the next column on the
/// bottom row and the colours of new text.
pub struct VgaBuffer {
    col: usize,
    f_colour: Colour,
    b_colour: Colour,
    buffer: Vec<PrintableChar>,
}

impl VgaBuffer {
    /// The screen holds one cell per position and the column is within the row.
    pub closed spec fn wf(&self) -> bool {
        &&& self.buffer@.len() == VGA_BUFFER_CELLS
        &&& self.col <= VGA_BUFFER_WIDTH
    }

    /// The column on the bottom row where the next character goes.
    pub closed spec fn column(&self) -> int {
        self.col as int
    }

    /// The colour of new text.
    pub closed spec fn foreground(&self) -> Colour {
        self.f_colour
    }

    /// The colour behind new text.
    pub closed spec fn background(&self) -> Colour {
        self.b_colour
    }

    /// The cells of the screen, row-major.
    pub closed spec fn cells(&self) -> Seq<PrintableChar> {
        self.buffer@
    }

    /// A writer at column 0 of the screen whose cells are `screen`, row-major;
    /// the cells are kept as they are.
    pub fn new(f_colour: Colour, b_colour: Colour, screen: Vec<PrintableChar>) -> (r: Self)
        requires
            screen@.len() == VGA_BUFFER_CELLS,
        ensures
            r.wf(),
            r.column() == 0,
            r.foreground() == f_colour,
            r.background() == b_colour,
            r.cells() == screen@,
    {
        VgaBuffer { col: 0, f_colour, b_colour, buffer: screen }
    }

    /// A well-formed writer's column is within the row and its screen has one
    /// cell per position.
    pub proof fn lemma_wf_bounds(&self)
        requires
            self.wf(),
        ensures
            0 <= self.column() <= VGA_BUFFER_WIDTH,
            self.cells().len() == VGA_BUFFER_CELLS,
    {
    }

    /// Sets the colours of the text printed from now on.
    pub fn change_colour(&mut self, f_colour: Colour, b_colour: Colour)
        requires
            old(self).wf(),
        ensures
            final(self).wf(),
            final(self).foreground() == f_colour,
            final(self).background() == b_colour,
            final(self).column() == old(self).column(),
            final(self).cells() == old(self).cells(),
    {
        self.f_colour = f_colour;
        self.b_colour = b_colour;
    }

    /// Writes `char` at the current column of the bottom row; a line feed
    /// starts a new line, and a full row starts a new line before `char` is written.
    fn print_char(&mut self, char: char)
        requires
            old(self).wf(),
        ensures
            final(self).wf(),
            final(self).foreground() == old(self).foreground(),
            final(self).background() == old(self).background(),
            (final(self).column(), final(self).cells()) == print_char_step(
                old(self).column(),
                old(self).cells(),
                old(self).foreground(),
                old(self).background(),
                char,
            ),
    {
        if char == '\n' {
            self.new_line();
            return ;
        }
        if self.col >= VGA_BUFFER_WIDTH {
            self.new_line();
        }
        let byte = char as u8;
        let printable_char = PrintableChar::new(byte, self.f_colour.code(), self.b_colour.code());
        let index = VGA_LAST_ROW_START + self.col;
        self.buffer[index] = printable_char;
        self.col = self.col + 1;
    }

    /// Prints the characters of `s` in order.
    pub fn print_string(&mut self, s: &str)
        requires
            old(self).wf(),
        ensures
            final(self).wf(),
            final(self).foreground() == old(self).foreground(),
            final(self).background() == old(self).background(),
            (final(self).column(), final(self).cells()) == print_chars(
                old(self).column(),
                old(self).cells(),
                old(self).foreground(),
                old(self).background(),
                s@,
            ),
    {
        let n = s.unicode_len();
        let mut i: usize = 0;
        assert(s@.take(0) =~= Seq::<char>::empty());
        while i < n
            invariant
                n == s@.len(),
                i <= n,
                self.wf(),
                self.foreground() == old(self).foreground(),
                self.background() == old(self).background(),
                (self.column(), self.cells()) == print_chars(
                    old(self).column(),
                    old(self).cells(),
                    old(self).foreground(),
                    old(self).background(),
                    s@.take(i as int),
                ),
            decreases n - i,
        {
            let c = s.get_char(i);
            proof {
                let fg = old(self).foreground();
                let bg = old(self).background();
                assert(s@.take(i + 1) =~= s@.take(i as int) + seq![c]);
                lemma_print_chars_concat(
                    old(self).column(),
                    old(self).cells(),
                    fg,
                    bg,
                    s@.take(i as int),
                    seq![c],
                );
                let mid = print_chars(old(self).column(), old(self).cells(), fg, bg, s@.take(i as int));
                assert(seq![c].drop_first() =~= Seq::<char>::empty());
                assert(seq![c][0] == c);
                reveal_with_fuel(print_chars, 2);
                assert(print_chars(mid.0, mid.1, fg, bg, seq![c]) == print_char_step(mid.0, mid.1, fg, bg, c));
            }
            self.print_char(c);
            i = i + 1;
        }
        assert(s@.take(n as int) =~= s@);
    }

    /// Moves every row up by one and blanks the bottom row; the column returns to 0.
    fn new_line(&mut self)
        requires
            old(self).wf(),
        ensures
            final(self).wf(),
            final(self).column() == 0,
            final(self).foreground() == old(self).foreground(),
            final(self).background() == old(self).background(),
            final(self).cells() == scrolled(old(self).cells()),
    {
        let mut j: usize = 0;
        while j < VGA_LAST_ROW_START
            invariant
                j <= VGA_LAST_ROW_START,
                self.buffer@.len() == VGA_BUFFER_CELLS,
                self.col == old(self).col,
                self.f_colour == old(self).f_colour,
                self.b_colour == old(self).b_colour,
                forall|i: int| 0 <= i < j ==> self.buffer@[i] == old(self).buffer@[i + VGA_BUFFER_WIDTH],
                forall|i: int| j <= i < VGA_BUFFER_CELLS ==> self.buffer@[i] == old(self).buffer@[i],
            decreases VGA_LAST_ROW_START - j,
        {
            let moved = self.buffer[j + VGA_BUFFER_WIDTH];
            self.buffer[j] = moved;
            j = j + 1;
        }
        while j < VGA_BUFFER_CELLS
            invariant
                VGA_LAST_ROW_START <= j <= VGA_BUFFER_CELLS,
                self.buffer@.len() == VGA_BUFFER_CELLS,
                self.f_colour == old(self).f_colour,
                self.b_colour == old(self).b_colour,
                forall|i: int| 0 <= i < VGA_LAST_ROW_START ==> self.buffer@[i] == old(self).buffer@[i + VGA_BUFFER_WIDTH],
                forall|i: int| VGA_LAST_ROW_START <= i < j ==> self.buffer@[i] == blank_cell(),
            decreases VGA_BUFFER_CELLS - j,
        {
            self.buffer[j] = PrintableChar::default();
            j = j + 1;
        }
        self.col = 0;
        assert(self.cells() =~= scrolled(old(self).cells()));
    }

    /// The column on the bottom row where the next character goes.
    pub fn current_column(&self) -> (r: usize)
        requires
            self.wf(),
        ensures
            r == self.column(),
    {
        self.col
    }

    /// The cell at `row` and `col`.
    pub fn cell(&self, row: usize, col: usize) -> (r: PrintableChar)
        requires
            self.wf(),
            row < VGA_BUFFER_HEIGHT,
            col < VGA_BUFFER_WIDTH,
        ensures
            r == self.cells()[row * VGA_BUFFER_WIDTH + col],
    {
        assert(row * VGA_BUFFER_WIDTH + col < VGA_BUFFER_CELLS) by (nonlinear_arith)
            requires
                row < VGA_BUFFER_HEIGHT,
                col < VGA_BUFFER_WIDTH,
        ;
        self.buffer[row * VGA_BUFFER_WIDTH + col]
    }
}

} // verus!

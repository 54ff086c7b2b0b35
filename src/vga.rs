//! The VGA text screen: colours, characters, and a writer that prints on
//! the bottom row and scrolls. The writer keeps the screen's contents; the
//! caller copies them to the memory-mapped text buffer.
use vstd::prelude::*;
use vstd::string::StringSliceAdditionalSpecFns;

verus! {

/// Columns of the text screen.
pub const BUFFER_WIDTH: usize = 80;

/// Rows of the text screen.
pub const BUFFER_HEIGHT: usize = 25;

/// Cells of the text screen, row after row.
pub const BUFFER_CELLS: usize = 2000;

/// The sixteen colours of the text mode.
#[derive(Clone, Copy, Debug, PartialEq, Eq, Structural)]
pub enum Color {
    Black,
    Blue,
    Green,
    Cyan,
    Red,
    Magenta,
    Brown,
    LightGray,
    DarkGray,
    LightBlue,
    LightGreen,
    LightCyan,
    LightRed,
    Pink,
    Yellow,
    White,
}

impl Color {
    /// The colour's number in the text mode.
    pub open spec fn spec_code(self) -> u8 {
        match self {
            Color::Black => 0,
            Color::Blue => 1,
            Color::Green => 2,
            Color::Cyan => 3,
            Color::Red => 4,
            Color::Magenta => 5,
            Color::Brown => 6,
            Color::LightGray => 7,
            Color::DarkGray => 8,
            Color::LightBlue => 9,
            Color::LightGreen => 10,
            Color::LightCyan => 11,
            Color::LightRed => 12,
            Color::Pink => 13,
            Color::Yellow => 14,
            Color::White => 15,
        }
    }

    /// The colour's number in the text mode.
    pub fn code(self) -> (r: u8)
        ensures
            r == self.spec_code(),
    {
        match self {
            Color::Black => 0,
            Color::Blue => 1,
            Color::Green => 2,
            Color::Cyan => 3,
            Color::Red => 4,
            Color::Magenta => 5,
            Color::Brown => 6,
            Color::LightGray => 7,
            Color::DarkGray => 8,
            Color::LightBlue => 9,
            Color::LightGreen => 10,
            Color::LightCyan => 11,
            Color::LightRed => 12,
            Color::Pink => 13,
            Color::Yellow => 14,
            Color::White => 15,
        }
    }
}

/// A foreground and a background colour in one byte: background in the
/// high four bits, foreground in the low four.
#[derive(Clone, Copy, Debug, PartialEq, Eq, Structural)]
pub struct ColorCode(pub u8);

impl ColorCode {
    pub fn new(foreground: Color, background: Color) -> (r: ColorCode)
        ensures
            r.0 == background.spec_code() * 16 + foreground.spec_code(),
    {
        let b = background.code();
        let f = foreground.code();
        assert(b < 16 && f < 16 ==> (b << 4u8) | f == b * 16 + f) by (bit_vector);
        ColorCode((b << 4) | f)
    }
}

/// A character cell of the screen.
#[derive(Clone, Copy, Debug, PartialEq, Eq, Structural)]
pub struct VgaChar {
    pub ascii: u8,
    pub color: ColorCode,
}

/// The byte shown for `b`: printable ASCII and newlines as they are, a
/// filled square (0xfe) for anything else.
pub open spec fn shown_byte(b: u8) -> u8 {
    if (0x20 <= b && b <= 0x7e) || b == 0x0a {
        b
    } else {
        0xfe
    }
}

/// The screen after scrolling up one row: the top row is lost and the
/// bottom row is blank.
pub open spec fn scrolled(screen: Seq<VgaChar>, color: ColorCode) -> Seq<VgaChar> {
    Seq::new(
        BUFFER_CELLS as nat,
        |i: int|
            if i < (BUFFER_CELLS - BUFFER_WIDTH) as int {
                screen[i + BUFFER_WIDTH]
            } else {
                VgaChar { ascii: 0x20, color }
            },
    )
}

/// The screen and column after `byte` was written at column `col`.
pub open spec fn after_byte(screen: Seq<VgaChar>, col: int, color: ColorCode, byte: u8) -> (
    Seq<VgaChar>,
    int,
) {
    if byte == 0x0a {
        (scrolled(screen, color), 0)
    } else {
        let (s, c) = if col >= BUFFER_WIDTH {
            (scrolled(screen, color), 0)
        } else {
            (screen, col)
        };
        (
            s.update((BUFFER_CELLS - BUFFER_WIDTH) + c, VgaChar { ascii: byte, color }),
            c + 1,
        )
    }
}

/// The screen and column after the bytes `bytes` were written, each shown
/// as `shown_byte` gives.
pub open spec fn after_bytes(screen: Seq<VgaChar>, col: int, color: ColorCode, bytes: Seq<u8>) -> (
    Seq<VgaChar>,
    int,
)
    decreases bytes.len(),
{
    if bytes.len() == 0 {
        (screen, col)
    } else {
        let (s, c) = after_bytes(screen, col, color, bytes.drop_last());
        after_byte(s, c, color, shown_byte(bytes.last()))
    }
}

/// Writes text on the bottom row of a screen, scrolling up at each newline
/// and when the row is full.
pub struct Writer {
    col_pos: usize,
    color_code: ColorCode,
    buffer: Vec<VgaChar>,
}

impl Writer {
    /// The cells of the screen, row after row.
    pub closed spec fn screen(&self) -> Seq<VgaChar> {
        self.buffer@
    }

    /// The column where the next character goes.
    pub closed spec fn column(&self) -> int {
        self.col_pos as int
    }

    pub closed spec fn color(&self) -> ColorCode {
        self.color_code
    }

    pub closed spec fn wf(&self) -> bool {
        &&& self.buffer@.len() == BUFFER_CELLS
        &&& self.col_pos <= BUFFER_WIDTH
    }

    /// A writer in `color` on a blank screen.
    pub fn new(color: ColorCode) -> (r: Writer)
        ensures
            r.wf(),
            r.column() == 0,
            r.color() == color,
            r.screen() == Seq::new(BUFFER_CELLS as nat, |i: int| VgaChar { ascii: 0x20, color }),
    {
        let mut buffer: Vec<VgaChar> = Vec::new();
        let mut i: usize = 0;
        while i < BUFFER_CELLS
            invariant
                i <= BUFFER_CELLS,
                buffer@ == Seq::new(i as nat, |k: int| VgaChar { ascii: 0x20, color }),
            decreases BUFFER_CELLS - i,
        {
            buffer.push(VgaChar { ascii: 0x20, color });
            i = i + 1;
            assert(buffer@ =~= Seq::new(i as nat, |k: int| VgaChar { ascii: 0x20, color }));
        }
        Writer { col_pos: 0, color_code: color, buffer }
    }

    /// The cells of the screen, row after row.
    pub fn screen_cells(&self) -> (r: &[VgaChar])
        ensures
            r@ == self.screen(),
    {
        self.buffer.as_slice()
    }

    /// Writes one byte; a newline scrolls.
    pub fn write_byte(&mut self, byte: u8)
        requires
            old(self).wf(),
        ensures
            final(self).wf(),
            final(self).color() == old(self).color(),
            (final(self).screen(), final(self).column()) == after_byte(
                old(self).screen(),
                old(self).column(),
                old(self).color(),
                byte,
            ),
    {
        if byte == 0x0a {
            self.new_line();
        } else {
            if self.col_pos >= BUFFER_WIDTH {
                self.new_line();
            }
            let idx = (BUFFER_CELLS - BUFFER_WIDTH) + self.col_pos;
            let ch = VgaChar { ascii: byte, color: self.color_code };
            self.buffer.set(idx, ch);
            self.col_pos = self.col_pos + 1;
        }
    }

    /// Writes `s` byte after byte: printable ASCII and newlines as they
    /// are, a filled square for any other byte.
    pub fn write_string(&mut self, s: &str)
        requires
            old(self).wf(),
        ensures
            final(self).wf(),
            final(self).color() == old(self).color(),
            (final(self).screen(), final(self).column()) == after_bytes(
                old(self).screen(),
                old(self).column(),
                old(self).color(),
                s.spec_bytes(),
            ),
    {
        let bytes = s.as_bytes();
        let mut i: usize = 0;
        while i < bytes.len()
            invariant
                self.wf(),
                self.color() == old(self).color(),
                bytes@ == s.spec_bytes(),
                i <= bytes@.len(),
                (self.screen(), self.column()) == after_bytes(
                    old(self).screen(),
                    old(self).column(),
                    old(self).color(),
                    bytes@.take(i as int),
                ),
            decreases bytes@.len() - i,
        {
            let b = bytes[i];
            let shown = if (0x20 <= b && b <= 0x7e) || b == 0x0a {
                b
            } else {
                0xfe
            };
            self.write_byte(shown);
            assert(bytes@.take(i + 1).drop_last() =~= bytes@.take(i as int));
            i = i + 1;
        }
        assert(bytes@.take(i as int) =~= bytes@);
    }

    /// Scrolls up one row and moves to the start of the bottom row.
    fn new_line(&mut self)
        requires
            old(self).wf(),
        ensures
            final(self).wf(),
            final(self).color() == old(self).color(),
            final(self).screen() == scrolled(old(self).screen(), old(self).color()),
            final(self).column() == 0,
    {
        let ghost s0 = self.buffer@;
        let mut i: usize = 0;
        while i < BUFFER_CELLS - BUFFER_WIDTH
            invariant
                self.wf(),
                self.color_code == old(self).color_code,
                s0 == old(self).buffer@,
                i <= BUFFER_CELLS - BUFFER_WIDTH,
                forall|k: int| 0 <= k < i ==> #[trigger] self.buffer@[k] == s0[k + BUFFER_WIDTH],
                forall|k: int| i <= k < BUFFER_CELLS ==> #[trigger] self.buffer@[k] == s0[k],
            decreases BUFFER_CELLS - BUFFER_WIDTH - i,
        {
            let ch = self.buffer[i + BUFFER_WIDTH];
            self.buffer.set(i, ch);
            i = i + 1;
        }
        self.clear_row(BUFFER_HEIGHT - 1);
        self.col_pos = 0;
        assert(self.buffer@ =~= scrolled(s0, self.color_code));
    }

    /// Fills row `row` with blanks.
    fn clear_row(&mut self, row: usize)
        requires
            old(self).wf(),
            row < BUFFER_HEIGHT,
        ensures
            final(self).wf(),
            final(self).color_code == old(self).color_code,
            final(self).col_pos == old(self).col_pos,
            forall|k: int|
                0 <= k < BUFFER_CELLS ==> #[trigger] final(self).buffer@[k] == if row
                    * BUFFER_WIDTH <= k < (row + 1) * BUFFER_WIDTH {
                    VgaChar { ascii: 0x20, color: old(self).color_code }
                } else {
                    old(self).buffer@[k]
                },
    {
        let start = row * BUFFER_WIDTH;
        let mut col: usize = 0;
        while col < BUFFER_WIDTH
            invariant
                self.wf(),
                self.color_code == old(self).color_code,
                self.col_pos == old(self).col_pos,
                start == row * BUFFER_WIDTH,
                row < BUFFER_HEIGHT,
                col <= BUFFER_WIDTH,
                forall|k: int|
                    0 <= k < BUFFER_CELLS ==> #[trigger] self.buffer@[k] == if start <= k < start
                        + col {
                        VgaChar { ascii: 0x20, color: old(self).color_code }
                    } else {
                        old(self).buffer@[k]
                    },
            decreases BUFFER_WIDTH - col,
        {
            let blank = VgaChar { ascii: 0x20, color: self.color_code };
            self.buffer.set(start + col, blank);
            col = col + 1;
        }
    }
}

} // verus!

//! The text screen: 25 rows of 80 characters, written at the bottom row
//! and scrolled upwards line by line.

use vstd::prelude::*;
use vstd::string::StringSliceAdditionalSpecFns;

verus! {

/// The number of rows of the screen.
pub const BUFFER_HEIGHT: usize = 25;

/// The number of characters in a row.
pub const BUFFER_WIDTH: usize = 80;

/// The number of characters on the screen.
pub const BUFFER_CELLS: usize = 2000;

/// The byte of a blank.
pub const BLANK: u8 = 0x20;

/// The byte that begins a new line.
pub const LINE_FEED: u8 = 0x0a;

/// The sixteen colours of the text screen.
#[allow(non_camel_case_types)]
#[derive(Debug, Clone, Copy, PartialEq, Eq)]
pub enum Color {
    Black,
    Blue,
    Green,
    Cyan,
    Red,
    Magenta,
    Brown,
    LightGray,
    DarkGray,
    LightBlue,
    LightGreen,
    LightCyan,
    LightRed,
    PINK,
    YELLOW,
    WHITE,
}

impl Color {
    /// The colour's number, from 0 for black to 15 for white.
    pub open spec fn spec_number(self) -> u8 {
        match self {
            Color::Black => 0x0,
            Color::Blue => 0x1,
            Color::Green => 0x2,
            Color::Cyan => 0x3,
            Color::Red => 0x4,
            Color::Magenta => 0x5,
            Color::Brown => 0x6,
            Color::LightGray => 0x7,
            Color::DarkGray => 0x8,
            Color::LightBlue => 0x9,
            Color::LightGreen => 0xa,
            Color::LightCyan => 0xb,
            Color::LightRed => 0xc,
            Color::PINK => 0xd,
            Color::YELLOW => 0xe,
            Color::WHITE => 0xf,
        }
    }

    /// The colour's number, from 0 for black to 15 for white.
    #[verifier::when_used_as_spec(spec_number)]
    pub fn number(self) -> (number: u8)
        ensures
            number == self.spec_number(),
            number < 16,
    {
        match self {
            Color::Black => 0x0,
            Color::Blue => 0x1,
            Color::Green => 0x2,
            Color::Cyan => 0x3,
            Color::Red => 0x4,
            Color::Magenta => 0x5,
            Color::Brown => 0x6,
            Color::LightGray => 0x7,
            Color::DarkGray => 0x8,
            Color::LightBlue => 0x9,
            Color::LightGreen => 0xa,
            Color::LightCyan => 0xb,
            Color::LightRed => 0xc,
            Color::PINK => 0xd,
            Color::YELLOW => 0xe,
            Color::WHITE => 0xf,
        }
    }
}

/// The colours of a character: the background in the upper four bits, the
/// foreground in the lower four.
#[derive(Debug, Clone, Copy, PartialEq, Eq)]
pub struct ColorCode {
    pub code: u8,
}

impl ColorCode {
    /// The code of `foreground` on `background`.
    pub fn new(foreground: Color, background: Color) -> (color_code: ColorCode)
        ensures
            color_code.code == (background.number() << 4) | foreground.number(),
            color_code.code == background.number() * 16 + foreground.number(),
    {
        let high: u8 = background.number();
        let low: u8 = foreground.number();
        assert((high << 4) | low == high * 16 + low) by (bit_vector)
            requires
                high < 16,
                low < 16,
        ;
        ColorCode { code: (high << 4) | low }
    }
}

/// A character on the screen, with its colours.
#[derive(Debug, Clone, Copy, PartialEq, Eq)]
pub struct ScreenChar {
    pub ascii_char: u8,
    pub color_code: ColorCode,
}

/// What a `Writer` has put on the screen: the characters row after row
/// from the top, the column at which the next character goes, and the
/// colours in which it writes.
pub struct Screen {
    pub chars: Seq<ScreenChar>,
    pub column_position: nat,
    pub color_code: ColorCode,
}

impl Screen {
    /// A blank in the writer's colours.
    pub open spec fn blank(self) -> ScreenChar {
        ScreenChar { ascii_char: BLANK, color_code: self.color_code }
    }

    /// The character in row `row` at column `col`.
    pub open spec fn at(self, row: int, col: int) -> ScreenChar {
        self.chars[row * BUFFER_WIDTH + col]
    }

    /// The screen after a new line is begun: every row has moved up by
    /// one, the top row is gone, the bottom row is blank, and writing goes
    /// on at its start.
    pub open spec fn new_line(self) -> Screen {
        Screen {
            chars: Seq::new(
                BUFFER_CELLS as nat,
                |i: int|
                    if i < BUFFER_CELLS - BUFFER_WIDTH {
                        self.chars[i + BUFFER_WIDTH]
                    } else {
                        self.blank()
                    },
            ),
            column_position: 0,
            ..self
        }
    }

    /// The screen after the character `chr` is written: at the bottom row,
    /// in the column where writing goes on, and on a new line where the
    /// row is full.
    pub open spec fn put(self, chr: u8) -> Screen {
        let screen = if self.column_position >= BUFFER_WIDTH {
            self.new_line()
        } else {
            self
        };
        Screen {
            chars: screen.chars.update(
                (BUFFER_HEIGHT - 1) * BUFFER_WIDTH + screen.column_position,
                ScreenChar { ascii_char: chr, color_code: screen.color_code },
            ),
            column_position: screen.column_position + 1,
            ..screen
        }
    }

    /// The screen after the byte `byte` is written: a line feed begins a
    /// new line, any other byte is a character.
    pub open spec fn write_byte(self, byte: u8) -> Screen {
        if byte == LINE_FEED {
            self.new_line()
        } else {
            self.put(byte)
        }
    }

    /// The screen after the bytes `bytes` are written one after another.
    pub open spec fn write_bytes(self, bytes: Seq<u8>) -> Screen
        decreases bytes.len(),
    {
        if bytes.len() == 0 {
            self
        } else {
            self.write_bytes(bytes.drop_last()).write_byte(bytes.last())
        }
    }

    /// Every character of the screen is a blank, and writing goes on at
    /// the start of the bottom row.
    pub open spec fn is_clear(self) -> bool {
        &&& self.chars.len() == BUFFER_CELLS
        &&& self.column_position == 0
        &&& forall|i: int| 0 <= i < BUFFER_CELLS ==> #[trigger] self.chars[i] == self.blank()
    }
}

/// A writer on the text screen.
pub struct Writer {
    column_position: usize,
    color_code: ColorCode,
    buffer: Vec<ScreenChar>,
}

impl View for Writer {
    type V = Screen;

    closed spec fn view(&self) -> Screen {
        Screen {
            chars: self.buffer@,
            column_position: self.column_position as nat,
            color_code: self.color_code,
        }
    }
}

impl Writer {
    /// The screen has its 25 rows of 80 characters.
    pub open spec fn wf(&self) -> bool {
        self@.chars.len() == BUFFER_CELLS
    }

    /// A writer in the colours `color_code` on a screen of blanks, which
    /// goes on writing at the column `column_position` of the bottom row.
    pub fn new(column_position: usize, color_code: ColorCode) -> (writer: Writer)
        ensures
            writer.wf(),
            writer@.column_position == column_position,
            writer@.color_code == color_code,
            forall|i: int| 0 <= i < BUFFER_CELLS ==> #[trigger] writer@.chars[i] == writer@.blank(),
    {
        let blank = ScreenChar { ascii_char: BLANK, color_code };
        let mut buffer: Vec<ScreenChar> = Vec::new();
        let mut i: usize = 0;
        while i < BUFFER_CELLS
            invariant
                i <= BUFFER_CELLS,
                buffer@.len() == i,
                blank == (ScreenChar { ascii_char: BLANK, color_code }),
                forall|j: int| 0 <= j < i ==> #[trigger] buffer@[j] == blank,
            decreases BUFFER_CELLS - i,
        {
            buffer.push(blank);
            i += 1;
        }
        Writer { column_position, color_code, buffer }
    }

    /// The column of the bottom row at which the next character goes.
    pub fn column_position(&self) -> (column: usize)
        ensures
            column == self@.column_position,
    {
        self.column_position
    }

    /// The character in row `row` at column `col`.
    pub fn char_at(&self, row: usize, col: usize) -> (chr: ScreenChar)
        requires
            self.wf(),
            row < BUFFER_HEIGHT,
            col < BUFFER_WIDTH,
        ensures
            chr == self@.at(row as int, col as int),
    {
        assert(row * BUFFER_WIDTH + col < BUFFER_CELLS) by (nonlinear_arith)
            requires
                row < BUFFER_HEIGHT,
                col < BUFFER_WIDTH,
        ;
        self.buffer[row * BUFFER_WIDTH + col]
    }

    /// Writes the bytes of `s` one after another.
    pub fn write_str(&mut self, s: &str)
        requires
            old(self).wf(),
        ensures
            final(self).wf(),
            final(self)@ == old(self)@.write_bytes(s.spec_bytes()),
    {
        let bytes = s.as_bytes();
        let mut i: usize = 0;
        while i < bytes.len()
            invariant
                i <= bytes@.len(),
                bytes@ == s.spec_bytes(),
                self.wf(),
                self@ == old(self)@.write_bytes(bytes@.take(i as int)),
            decreases bytes@.len() - i,
        {
            assert(bytes@.take(i + 1).drop_last() =~= bytes@.take(i as int));
            self.write_byte(bytes[i]);
            i += 1;
        }
        assert(bytes@.take(i as int) =~= bytes@);
    }

    /// Writes one byte: a line feed begins a new line, any other byte is
    /// a character.
    pub fn write_byte(&mut self, byte: u8)
        requires
            old(self).wf(),
        ensures
            final(self).wf(),
            final(self)@ == old(self)@.write_byte(byte),
    {
        if byte == LINE_FEED {
            self.write_new_line()
        } else {
            self.write_character(byte)
        }
    }

    /// Writes the character `chr` at the bottom row, on a new line where
    /// the row is full.
    fn write_character(&mut self, chr: u8)
        requires
            old(self).wf(),
        ensures
            final(self).wf(),
            final(self)@ == old(self)@.put(chr),
    {
        if self.column_position >= BUFFER_WIDTH {
            self.write_new_line();
        }
        let row: usize = BUFFER_HEIGHT - 1;
        let col: usize = self.column_position;
        let color_code = self.color_code;
        self.buffer[row * BUFFER_WIDTH + col] = ScreenChar { ascii_char: chr, color_code };
        self.column_position += 1;
    }

    /// Moves every row up by one, blanks the bottom row and goes to its
    /// start.
    fn write_new_line(&mut self)
        requires
            old(self).wf(),
        ensures
            final(self).wf(),
            final(self)@ == old(self)@.new_line(),
    {
        let mut row: usize = 1;
        while row < BUFFER_HEIGHT
            invariant
                1 <= row <= BUFFER_HEIGHT,
                self.wf(),
                self@.color_code == old(self)@.color_code,
                forall|i: int|
                    0 <= i < (row - 1) * BUFFER_WIDTH ==> #[trigger] self@.chars[i] == old(
                        self,
                    )@.chars[i + BUFFER_WIDTH],
                forall|i: int|
                    (row - 1) * BUFFER_WIDTH <= i < BUFFER_CELLS ==> #[trigger] self@.chars[i]
                        == old(self)@.chars[i],
            decreases BUFFER_HEIGHT - row,
        {
            let mut col: usize = 0;
            while col < BUFFER_WIDTH
                invariant
                    1 <= row < BUFFER_HEIGHT,
                    col <= BUFFER_WIDTH,
                    self.wf(),
                    self@.color_code == old(self)@.color_code,
                    forall|i: int|
                        0 <= i < (row - 1) * BUFFER_WIDTH + col ==> #[trigger] self@.chars[i]
                            == old(self)@.chars[i + BUFFER_WIDTH],
                    forall|i: int|
                        (row - 1) * BUFFER_WIDTH + col <= i < BUFFER_CELLS
                            ==> #[trigger] self@.chars[i] == old(self)@.chars[i],
                decreases BUFFER_WIDTH - col,
            {
                let chr = self.buffer[row * BUFFER_WIDTH + col];
                self.buffer[(row - 1) * BUFFER_WIDTH + col] = chr;
                col += 1;
            }
            row += 1;
        }
        self.clear_row(BUFFER_HEIGHT - 1);
        self.column_position = 0;
        assert(self@.chars =~= old(self)@.new_line().chars);
    }

    /// Blanks the row `row`.
    fn clear_row(&mut self, row: usize)
        requires
            old(self).wf(),
            row < BUFFER_HEIGHT,
        ensures
            final(self).wf(),
            final(self)@.column_position == old(self)@.column_position,
            final(self)@.color_code == old(self)@.color_code,
            forall|i: int|
                0 <= i < BUFFER_CELLS ==> #[trigger] final(self)@.chars[i] == if row * BUFFER_WIDTH
                    <= i < (row + 1) * BUFFER_WIDTH {
                    old(self)@.blank()
                } else {
                    old(self)@.chars[i]
                },
    {
        let blank = ScreenChar { ascii_char: BLANK, color_code: self.color_code };
        assert(row * BUFFER_WIDTH + BUFFER_WIDTH <= BUFFER_CELLS) by (nonlinear_arith)
            requires
                row < BUFFER_HEIGHT,
        ;
        let mut col: usize = 0;
        while col < BUFFER_WIDTH
            invariant
                col <= BUFFER_WIDTH,
                row * BUFFER_WIDTH + BUFFER_WIDTH <= BUFFER_CELLS,
                self.wf(),
                self@.column_position == old(self)@.column_position,
                self@.color_code == old(self)@.color_code,
                blank == old(self)@.blank(),
                forall|i: int|
                    0 <= i < BUFFER_CELLS ==> #[trigger] self@.chars[i] == if row * BUFFER_WIDTH
                        <= i < row * BUFFER_WIDTH + col {
                        blank
                    } else {
                        old(self)@.chars[i]
                    },
            decreases BUFFER_WIDTH - col,
        {
            self.buffer[row * BUFFER_WIDTH + col] = blank;
            col += 1;
        }
    }
}

/// Writes `text` with `writer`.
pub fn print(writer: &mut Writer, text: &str)
    requires
        old(writer).wf(),
    ensures
        final(writer).wf(),
        final(writer)@ == old(writer)@.write_bytes(text.spec_bytes()),
{
    writer.write_str(text);
}

/// Scrolls everything off the screen, by one new line for each row.
pub fn clear_screen(writer: &mut Writer)
    requires
        old(writer).wf(),
    ensures
        final(writer).wf(),
        final(writer)@.is_clear(),
        final(writer)@.color_code == old(writer)@.color_code,
{
    let mut row: usize = 0;
    while row < BUFFER_HEIGHT
        invariant
            row <= BUFFER_HEIGHT,
            writer.wf(),
            writer@.color_code == old(writer)@.color_code,
            row > 0 ==> writer@.column_position == 0,
            forall|i: int|
                BUFFER_CELLS - row * BUFFER_WIDTH <= i < BUFFER_CELLS
                    ==> #[trigger] writer@.chars[i] == writer@.blank(),
        decreases BUFFER_HEIGHT - row,
    {
        writer.write_byte(LINE_FEED);
        row += 1;
    }
}

} // verus!

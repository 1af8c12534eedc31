//! Colors, screen cells and the console writer.

use vstd::prelude::*;
use vstd::string::StringSliceAdditionalSpecFns;
use crate::screen::{blank_row, sanitize, sanitized, Screen, BLANK, NEWLINE, PLACEHOLDER};
use crate::video_memory::{cell_bits, read_cell, write_cell, Cells, BUFFER_HEIGHT, BUFFER_WIDTH};

verus! {

/// The sixteen colors of the text-mode palette.
#[derive(Debug, Clone, Copy, PartialEq, Eq, Structural)]
pub enum Color {
    Black,
    Blue,
    Green,
    Cyan,
    Red,
    Magenta,
    Brown,
    LightGray,
    DarkGray,
    LightBlue,
    LightGreen,
    LightCyan,
    LightRed,
    Pink,
    Yellow,
    White,
}

impl Color {
    /// The four-bit code by which the hardware knows this color.
    pub open spec fn code(self) -> u8 {
        match self {
            Color::Black => 0,
            Color::Blue => 1,
            Color::Green => 2,
            Color::Cyan => 3,
            Color::Red => 4,
            Color::Magenta => 5,
            Color::Brown => 6,
            Color::LightGray => 7,
            Color::DarkGray => 8,
            Color::LightBlue => 9,
            Color::LightGreen => 10,
            Color::LightCyan => 11,
            Color::LightRed => 12,
            Color::Pink => 13,
            Color::Yellow => 14,
            Color::White => 15,
        }
    }

    /// Computes [`Color::code`].
    pub fn to_code(self) -> (code: u8)
        ensures
            code == self.code(),
            code < 16,
    {
        match self {
            Color::Black => 0,
            Color::Blue => 1,
            Color::Green => 2,
            Color::Cyan => 3,
            Color::Red => 4,
            Color::Magenta => 5,
            Color::Brown => 6,
            Color::LightGray => 7,
            Color::DarkGray => 8,
            Color::LightBlue => 9,
            Color::LightGreen => 10,
            Color::LightCyan => 11,
            Color::LightRed => 12,
            Color::Pink => 13,
            Color::Yellow => 14,
            Color::White => 15,
        }
    }
}

/// A foreground and a background color packed into one attribute byte: the
/// foreground code in the low four bits, the background code in the high four.
#[derive(Debug, Clone, Copy, PartialEq, Eq, Structural)]
pub struct ColorCode(pub u8);

impl ColorCode {
    /// The attribute byte for `foreground` on `background`.
    pub open spec fn pack(foreground: Color, background: Color) -> ColorCode {
        ColorCode((background.code() * 16 + foreground.code()) as u8)
    }

    /// The foreground code: the low four bits.
    pub open spec fn foreground(self) -> int {
        self.0 as int % 16
    }

    /// The background code: the high four bits.
    pub open spec fn background(self) -> int {
        self.0 as int / 16
    }

    /// Packs `foreground` and `background` into an attribute byte.
    pub fn new(foreground: Color, background: Color) -> (code: ColorCode)
        ensures
            code == ColorCode::pack(foreground, background),
            code.foreground() == foreground.code(),
            code.background() == background.code(),
    {
        let fg: u8 = foreground.to_code();
        let bg: u8 = background.to_code();
        assert((bg << 4 | fg) == bg * 16 + fg) by (bit_vector)
            requires
                fg < 16,
                bg < 16,
        ;
        ColorCode(bg << 4 | fg)
    }
}

/// One cell of the screen: a character code and the colors it is drawn in.
#[derive(Debug, Clone, Copy, PartialEq, Eq, Structural)]
pub struct ScreenChar {
    pub ascii_char: u8,
    pub color_code: ColorCode,
}

impl ScreenChar {
    /// The word that stands for this cell in video memory: the character code
    /// in the low byte, the attribute in the high byte.
    pub open spec fn encode(self) -> u16 {
        (self.ascii_char as int + 256 * self.color_code.0 as int) as u16
    }

    /// The cell that a word of video memory stands for.
    pub open spec fn decode(bits: u16) -> ScreenChar {
        ScreenChar {
            ascii_char: (bits as int % 256) as u8,
            color_code: ColorCode((bits as int / 256) as u8),
        }
    }

    /// A cell survives the trip through video memory.
    pub proof fn lemma_decode_encode(self)
        ensures
            ScreenChar::decode(self.encode()) == self,
    {
    }

    /// Every word of video memory is the encoding of the cell it decodes to.
    pub proof fn lemma_encode_decode(bits: u16)
        ensures
            ScreenChar::decode(bits).encode() == bits,
    {
    }

    /// Computes [`ScreenChar::encode`].
    pub fn to_bits(self) -> (bits: u16)
        ensures
            bits == self.encode(),
    {
        let low: u16 = self.ascii_char as u16;
        let high: u16 = self.color_code.0 as u16;
        assert((high << 8 | low) == low + 256 * high) by (bit_vector)
            requires
                low < 256,
                high < 256,
        ;
        high << 8 | low
    }

    /// Computes [`ScreenChar::decode`].
    pub fn from_bits(bits: u16) -> (cell: ScreenChar)
        ensures
            cell == ScreenChar::decode(bits),
    {
        assert((bits & 0xff) == bits % 256 && (bits >> 8) == bits / 256) by (bit_vector);
        ScreenChar {
            ascii_char: (bits & 0xff) as u8,
            color_code: ColorCode((bits >> 8) as u8),
        }
    }
}

/// The video buffer: exclusive access to the grid of cells that the display
/// hardware shows.
pub struct Buffer {
    chars: &'static mut Cells,
}

impl View for Buffer {
    type V = Seq<Seq<ScreenChar>>;

    /// What every cell shows, top row first.
    closed spec fn view(&self) -> Seq<Seq<ScreenChar>> {
        Buffer::shown(*self.chars)
    }
}

impl Buffer {
    /// What the cells of a grid show, top row first.
    pub open spec fn shown(cells: Cells) -> Seq<Seq<ScreenChar>> {
        Seq::new(
            BUFFER_HEIGHT as nat,
            |row: int|
                Seq::new(
                    BUFFER_WIDTH as nat,
                    |col: int| ScreenChar::decode(cell_bits(cells[row][col])),
                ),
        )
    }

    /// The grid has as many rows and columns as the hardware buffer.
    pub open spec fn full_size(rows: Seq<Seq<ScreenChar>>) -> bool {
        &&& rows.len() == BUFFER_HEIGHT
        &&& forall|row: int| 0 <= row < BUFFER_HEIGHT ==> (#[trigger] rows[row]).len() == BUFFER_WIDTH
    }

    /// A buffer always has the size of the hardware buffer.
    pub proof fn lemma_full_size(&self)
        ensures
            Buffer::full_size(self@),
    {
    }

    /// Takes over a grid of cells. Nothing is written: the buffer shows what
    /// the cells already hold.
    pub fn new(cells: &'static mut Cells) -> (buffer: Buffer)
        ensures
            buffer@ == Buffer::shown(*old(cells)),
            Buffer::full_size(buffer@),
    {
        Buffer { chars: cells }
    }

    /// Loads the cell at `row` and `col` from video memory.
    pub fn read(&self, row: usize, col: usize) -> (cell: ScreenChar)
        requires
            row < BUFFER_HEIGHT,
            col < BUFFER_WIDTH,
        ensures
            cell == self@[row as int][col as int],
    {
        ScreenChar::from_bits(read_cell(&self.chars[row][col]))
    }

    /// Stores `cell` at `row` and `col` in video memory. No other cell
    /// changes.
    pub fn write(&mut self, row: usize, col: usize, cell: ScreenChar)
        requires
            row < BUFFER_HEIGHT,
            col < BUFFER_WIDTH,
        ensures
            final(self)@ == old(self)@.update(
                row as int,
                old(self)@[row as int].update(col as int, cell),
            ),
    {
        write_cell(&mut self.chars[row][col], cell.to_bits());
        proof {
            cell.lemma_decode_encode();
            let after = self@;
            let expected = old(self)@.update(
                row as int,
                old(self)@[row as int].update(col as int, cell),
            );
            assert forall|r: int| 0 <= r < BUFFER_HEIGHT implies after[r] =~= expected[r] by {}
            assert(after =~= expected);
        }
    }
}

/// The console writer: a cursor that walks along the bottom row of the
/// screen, scrolling the rows up when the row ends.
pub struct Writer {
    column_position: usize,
    current_color: ColorCode,
    buffer: Buffer,
}

impl View for Writer {
    type V = Screen;

    /// The screen as it stands: the cells of the buffer, the cursor and the
    /// color.
    closed spec fn view(&self) -> Screen {
        Screen {
            rows: self.buffer@,
            column: self.column_position as int,
            color: self.current_color,
        }
    }
}

impl Writer {
    /// A writer for `buffer`, with the cursor at the start of the bottom row
    /// and yellow on black as its color. The screen keeps what it shows.
    pub fn new(buffer: Buffer) -> (writer: Writer)
        ensures
            writer@ == (Screen {
                rows: buffer@,
                column: 0,
                color: ColorCode::pack(Color::Yellow, Color::Black),
            }),
            writer@.wf(),
    {
        proof {
            buffer.lemma_full_size();
        }
        Writer {
            column_position: 0,
            current_color: ColorCode::new(Color::Yellow, Color::Black),
            buffer,
        }
    }

    /// The column that the next character is written to.
    pub fn column_position(&self) -> (column: usize)
        ensures
            column == self@.column,
    {
        self.column_position
    }

    /// The cell that the screen shows at `row` and `col`.
    pub fn read(&self, row: usize, col: usize) -> (cell: ScreenChar)
        requires
            row < BUFFER_HEIGHT,
            col < BUFFER_WIDTH,
        ensures
            cell == self@.rows[row as int][col as int],
    {
        self.buffer.read(row, col)
    }

    /// Writes one byte as it is. A newline scrolls the screen. Any other byte
    /// is stored at the cursor in the bottom row, after a scroll if the row is
    /// full, and the cursor moves right.
    pub fn write_byte(&mut self, byte: u8)
        ensures
            final(self)@ == old(self)@.write_byte(byte),
            final(self)@.wf(),
    {
        proof {
            self.buffer.lemma_full_size();
        }
        if byte == NEWLINE {
            self.new_line();
        } else {
            if self.column_position >= BUFFER_WIDTH {
                self.new_line();
            }
            let cell = ScreenChar { ascii_char: byte, color_code: self.current_color };
            self.buffer.write(BUFFER_HEIGHT - 1, self.column_position, cell);
            self.column_position += 1;
        }
        proof {
            self.buffer.lemma_full_size();
        }
    }

    /// Writes a string byte by byte. Printable ASCII and newlines are written
    /// as they are; any other byte is written as the placeholder glyph.
    pub fn write_string(&mut self, s: &str)
        ensures
            final(self)@ == old(self)@.write_string(s.spec_bytes()),
            old(self)@.wf() ==> final(self)@.wf(),
    {
        let bytes = s.as_bytes();
        let ghost clean = sanitized(bytes@);
        proof {
            assert(clean.take(0) =~= Seq::<u8>::empty());
        }
        for i in 0..bytes.len()
            invariant
                bytes@ == s.spec_bytes(),
                clean == sanitized(bytes@),
                self@ == old(self)@.write_bytes(clean.take(i as int)),
                old(self)@.wf() ==> self@.wf(),
        {
            let byte: u8 = bytes[i];
            proof {
                assert(clean.take(i + 1).drop_last() =~= clean.take(i as int));
                assert(clean.take(i + 1).last() == sanitize(byte));
            }
            if (0x20 <= byte && byte <= 0x7e) || byte == NEWLINE {
                self.write_byte(byte);
            } else {
                self.write_byte(PLACEHOLDER);
            }
        }
        proof {
            assert(clean.take(bytes@.len() as int) =~= clean);
        }
    }

    /// Scrolls the screen: every row moves up by one, the bottom row is
    /// cleared and the cursor returns to its start.
    fn new_line(&mut self)
        ensures
            final(self)@ == old(self)@.line_shift(),
    {
        proof {
            self.buffer.lemma_full_size();
        }
        for row in 1..BUFFER_HEIGHT
            invariant
                self.column_position == old(self).column_position,
                self.current_color == old(self).current_color,
                Buffer::full_size(self.buffer@),
                Buffer::full_size(old(self).buffer@),
                forall|r: int|
                    0 <= r < BUFFER_HEIGHT ==> #[trigger] self.buffer@[r] == if r < row - 1 {
                        old(self).buffer@[r + 1]
                    } else {
                        old(self).buffer@[r]
                    },
        {
            for col in 0..BUFFER_WIDTH
                invariant
                    1 <= row < BUFFER_HEIGHT,
                    self.column_position == old(self).column_position,
                    self.current_color == old(self).current_color,
                    Buffer::full_size(self.buffer@),
                    Buffer::full_size(old(self).buffer@),
                    forall|r: int|
                        0 <= r < BUFFER_HEIGHT && r != row - 1 ==> #[trigger] self.buffer@[r]
                            == if r < row - 1 {
                            old(self).buffer@[r + 1]
                        } else {
                            old(self).buffer@[r]
                        },
                    forall|c: int|
                        0 <= c < BUFFER_WIDTH ==> #[trigger] self.buffer@[row - 1][c] == if c
                            < col {
                            old(self).buffer@[row as int][c]
                        } else {
                            old(self).buffer@[row - 1][c]
                        },
            {
                let character = self.buffer.read(row, col);
                self.buffer.write(row - 1, col, character);
            }
            proof {
                assert(self.buffer@[row - 1] =~= old(self).buffer@[row as int]);
            }
        }
        self.clear_row(BUFFER_HEIGHT - 1);
        self.column_position = 0;
        proof {
            assert(self@.rows =~= old(self)@.line_shift().rows);
        }
    }

    /// Fills `row` with blanks in the current color.
    fn clear_row(&mut self, row: usize)
        requires
            row < BUFFER_HEIGHT,
        ensures
            final(self)@ == (Screen {
                rows: old(self)@.rows.update(row as int, blank_row(old(self)@.color)),
                ..old(self)@
            }),
    {
        proof {
            self.buffer.lemma_full_size();
        }
        for col in 0..BUFFER_WIDTH
            invariant
                row < BUFFER_HEIGHT,
                self.column_position == old(self).column_position,
                self.current_color == old(self).current_color,
                Buffer::full_size(self.buffer@),
                forall|r: int|
                    0 <= r < BUFFER_HEIGHT && r != row ==> #[trigger] self.buffer@[r] == old(
                        self,
                    ).buffer@[r],
                forall|c: int|
                    0 <= c < BUFFER_WIDTH ==> #[trigger] self.buffer@[row as int][c] == if c < col {
                        ScreenChar { ascii_char: BLANK, color_code: self.current_color }
                    } else {
                        old(self).buffer@[row as int][c]
                    },
        {
            let blank = ScreenChar { ascii_char: BLANK, color_code: self.current_color };
            self.buffer.write(row, col, blank);
        }
        proof {
            assert(self.buffer@[row as int] =~= blank_row(self.current_color));
            assert(self@.rows =~= old(self)@.rows.update(
                row as int,
                blank_row(old(self)@.color),
            ));
        }
    }
}

/// `core::fmt::Error`, the error of a formatting sink.
#[verifier::external_type_specification]
#[verifier::external_body]
pub struct ExFmtError(core::fmt::Error);

impl core::fmt::Write for Writer {
    /// Writes `s` as [`Writer::write_string`] does. It never fails.
    fn write_str(&mut self, s: &str) -> (result: Result<(), core::fmt::Error>)
        ensures
            result is Ok,
            final(self)@ == old(self)@.write_string(s.spec_bytes()),
            old(self)@.wf() ==> final(self)@.wf(),
    {
        self.write_string(s);
        Ok(())
    }
}

} // verus!

//! The screen as a mathematical value.
//!
//! [`Screen`] is what the writer's contracts speak of: the grid of cells, the
//! cursor column and the current color. Writing is defined here as a function
//! from screen to screen, with no memory and no loops.

use vstd::prelude::*;
use crate::vga_buffer::{ColorCode, ScreenChar};
use crate::video_memory::{BUFFER_HEIGHT, BUFFER_WIDTH};

verus! {

/// The byte that ends a line.
pub const NEWLINE: u8 = 0x0a;

/// The character code of an empty cell.
pub const BLANK: u8 = 0x20;

/// The glyph shown in place of a byte that cannot be printed.
pub const PLACEHOLDER: u8 = 0xfe;

/// Printable ASCII: from the space to the tilde.
pub open spec fn is_printable(byte: u8) -> bool {
    0x20 <= byte <= 0x7e
}

/// The byte that is written for `byte`: itself if it is printable or ends a
/// line, the placeholder otherwise.
pub open spec fn sanitize(byte: u8) -> u8 {
    if is_printable(byte) || byte == NEWLINE {
        byte
    } else {
        PLACEHOLDER
    }
}

/// The bytes that are written for `bytes`: each one sanitized.
pub open spec fn sanitized(bytes: Seq<u8>) -> Seq<u8> {
    bytes.map_values(|byte: u8| sanitize(byte))
}

/// How many of the bytes are newlines.
pub open spec fn newlines(bytes: Seq<u8>) -> nat
    decreases bytes.len(),
{
    if bytes.len() == 0 {
        0
    } else if bytes.last() == NEWLINE {
        newlines(bytes.drop_last()) + 1
    } else {
        newlines(bytes.drop_last())
    }
}

/// Where the line begins that position `index` of `bytes` lies on: just after
/// the last newline before `index`, or at the start of the bytes.
pub open spec fn line_start(bytes: Seq<u8>, index: int) -> int
    decreases index,
{
    if index <= 0 {
        0
    } else if bytes[index - 1] == NEWLINE {
        index
    } else {
        line_start(bytes, index - 1)
    }
}

/// A row that shows `line` from its first column on and blanks after it.
pub open spec fn padded_row(line: Seq<u8>, color: ColorCode) -> Seq<ScreenChar> {
    Seq::new(
        BUFFER_WIDTH as nat,
        |col: int|
            ScreenChar {
                ascii_char: if col < line.len() {
                    line[col]
                } else {
                    BLANK
                },
                color_code: color,
            },
    )
}

/// The text made of the given lines, each followed by a newline.
pub open spec fn join_lines(lines: Seq<Seq<u8>>) -> Seq<u8>
    decreases lines.len(),
{
    if lines.len() == 0 {
        Seq::empty()
    } else {
        join_lines(lines.drop_last()) + lines.last().push(NEWLINE)
    }
}

/// A row of empty cells in the given color.
pub open spec fn blank_row(color: ColorCode) -> Seq<ScreenChar> {
    Seq::new(BUFFER_WIDTH as nat, |col: int| ScreenChar { ascii_char: BLANK, color_code: color })
}

/// The state of the console: what every cell shows, where the next character
/// goes, and in which color.
pub struct Screen {
    /// The cells, top row first.
    pub rows: Seq<Seq<ScreenChar>>,
    /// The column of the bottom row that the next character is written to. It
    /// equals the width when the bottom row is full.
    pub column: int,
    /// The color of the characters yet to be written.
    pub color: ColorCode,
}

impl Screen {
    /// The grid has the size of the hardware buffer and the cursor lies
    /// within the bottom row or just past its end.
    pub open spec fn wf(self) -> bool {
        &&& self.rows.len() == BUFFER_HEIGHT
        &&& forall|row: int| 0 <= row < BUFFER_HEIGHT ==> (#[trigger] self.rows[row]).len() == BUFFER_WIDTH
        &&& 0 <= self.column <= BUFFER_WIDTH
    }

    /// The cursor stands at the start of an empty bottom row, as it does after
    /// every newline.
    pub open spec fn fresh(self) -> bool {
        &&& self.column == 0
        &&& self.rows[BUFFER_HEIGHT - 1] == blank_row(self.color)
    }

    /// The cell that a byte written now is shown as.
    pub open spec fn glyph(self, byte: u8) -> ScreenChar {
        ScreenChar { ascii_char: byte, color_code: self.color }
    }

    /// Moves every row up by one, losing the top row, and leaves an empty
    /// bottom row with the cursor at its start.
    pub open spec fn line_shift(self) -> Screen {
        Screen {
            rows: self.rows.subrange(1, BUFFER_HEIGHT as int).push(blank_row(self.color)),
            column: 0,
            color: self.color,
        }
    }

    /// Whether writing `byte` scrolls the screen: it ends the line, or the
    /// bottom row is full.
    pub open spec fn scrolls_on(self, byte: u8) -> bool {
        byte == NEWLINE || self.column >= BUFFER_WIDTH
    }

    /// The screen after one byte is written as it is. A newline scrolls. Any
    /// other byte goes to the cursor in the bottom row and moves the cursor
    /// right; if the row is full the screen scrolls first, so that the byte
    /// opens the new bottom row.
    pub open spec fn write_byte(self, byte: u8) -> Screen {
        if byte == NEWLINE {
            self.line_shift()
        } else {
            let start = if self.column >= BUFFER_WIDTH {
                self.line_shift()
            } else {
                self
            };
            let bottom = BUFFER_HEIGHT - 1;
            Screen {
                rows: start.rows.update(
                    bottom,
                    start.rows[bottom].update(start.column, self.glyph(byte)),
                ),
                column: start.column + 1,
                color: self.color,
            }
        }
    }

    /// The screen after the bytes are written one by one, each as it is.
    pub open spec fn write_bytes(self, bytes: Seq<u8>) -> Screen
        decreases bytes.len(),
    {
        if bytes.len() == 0 {
            self
        } else {
            self.write_bytes(bytes.drop_last()).write_byte(bytes.last())
        }
    }

    /// The screen after a string with the given bytes is written: every byte
    /// is sanitized, then written.
    pub open spec fn write_string(self, bytes: Seq<u8>) -> Screen {
        self.write_bytes(sanitized(bytes))
    }

    /// How many times the screen scrolls while a string with the given bytes
    /// is written.
    pub open spec fn string_scrolls(self, bytes: Seq<u8>) -> nat {
        self.scrolls(sanitized(bytes))
    }

    /// How many times the screen scrolls while the bytes are written one by
    /// one, each as it is.
    pub open spec fn scrolls(self, bytes: Seq<u8>) -> nat
        decreases bytes.len(),
    {
        if bytes.len() == 0 {
            0
        } else {
            let before = bytes.drop_last();
            let step: nat = if self.write_bytes(before).scrolls_on(bytes.last()) {
                1
            } else {
                0
            };
            self.scrolls(before) + step
        }
    }
}

} // verus!

//! The text console: 25 rows of 80 cells, a cursor, and the translation of
//! keyboard scancodes to the bytes the console shows.
//!
//! Rows count from 0 at the top. A line feed on the bottom row moves every
//! row up by one and clears the bottom row. A backspace steps one cell back
//! and blanks it; at the start of a row it steps to the last cell of the row
//! above, and at the top left corner it does nothing.

use vstd::prelude::*;
use crate::interrupts::pic::PortWrite;

verus! {

/// Rows of the console.
pub const BUFFER_HEIGHT: usize = 25;

/// Cells in a row.
pub const BUFFER_WIDTH: usize = 80;

/// Where the console's cells live in memory.
pub const VGA_BUFFER_ADDRESS: usize = 0xb8000;

/// Index port of the display controller.
pub const CRTC_INDEX: u16 = 0x3D4;

/// Data port of the display controller.
pub const CRTC_DATA: u16 = 0x3D5;

/// The sixteen colours of the text console.
#[derive(Clone, Copy, Debug, PartialEq, Eq, Structural)]
pub enum Color {
    Black,
    Blue,
    Green,
    Cyan,
    Red,
    Magenta,
    Brown,
    LightGray,
    DarkGray,
    LightBlue,
    LightGreen,
    LightCyan,
    LightRed,
    Pink,
    Yellow,
    White,
}

impl Color {
    /// The number of the colour, 0 to 15.
    pub open spec fn spec_code(self) -> u8 {
        match self {
            Color::Black => 0,
            Color::Blue => 1,
            Color::Green => 2,
            Color::Cyan => 3,
            Color::Red => 4,
            Color::Magenta => 5,
            Color::Brown => 6,
            Color::LightGray => 7,
            Color::DarkGray => 8,
            Color::LightBlue => 9,
            Color::LightGreen => 10,
            Color::LightCyan => 11,
            Color::LightRed => 12,
            Color::Pink => 13,
            Color::Yellow => 14,
            Color::White => 15,
        }
    }

    /// The number of the colour.
    pub fn code(self) -> (code: u8)
        ensures
            code == self.spec_code(),
            code < 16,
    {
        match self {
            Color::Black => 0,
            Color::Blue => 1,
            Color::Green => 2,
            Color::Cyan => 3,
            Color::Red => 4,
            Color::Magenta => 5,
            Color::Brown => 6,
            Color::LightGray => 7,
            Color::DarkGray => 8,
            Color::LightBlue => 9,
            Color::LightGreen => 10,
            Color::LightCyan => 11,
            Color::LightRed => 12,
            Color::Pink => 13,
            Color::Yellow => 14,
            Color::White => 15,
        }
    }
}

/// The digit row of the keyboard, scancodes 0x02 to 0x0B.
pub open spec fn digit_row() -> Seq<u8> {
    seq![0x31u8, 0x32, 0x33, 0x34, 0x35, 0x36, 0x37, 0x38, 0x39, 0x30]
}

/// The upper letter row, scancodes 0x10 to 0x19: q w e r t y u i o p.
pub open spec fn upper_row() -> Seq<u8> {
    seq![0x71u8, 0x77, 0x65, 0x72, 0x74, 0x79, 0x75, 0x69, 0x6F, 0x70]
}

/// The home row, scancodes 0x1E to 0x26: a s d f g h j k l.
pub open spec fn home_row() -> Seq<u8> {
    seq![0x61u8, 0x73, 0x64, 0x66, 0x67, 0x68, 0x6A, 0x6B, 0x6C]
}

/// The lower letter row, scancodes 0x2C to 0x32: z x c v b n m.
pub open spec fn lower_row() -> Seq<u8> {
    seq![0x7Au8, 0x78, 0x63, 0x76, 0x62, 0x6E, 0x6D]
}

/// The byte that the key with scancode `sc` stands for: the digits and the
/// lower-case letters by their rows, space, line feed for Enter, tab, and
/// 0x08 for Backspace; no other key has one.
pub open spec fn spec_scancode_to_ascii(sc: u8) -> Option<u8> {
    if 0x02 <= sc <= 0x0B {
        Some(digit_row()[sc - 0x02])
    } else if 0x10 <= sc <= 0x19 {
        Some(upper_row()[sc - 0x10])
    } else if 0x1E <= sc <= 0x26 {
        Some(home_row()[sc - 0x1E])
    } else if 0x2C <= sc <= 0x32 {
        Some(lower_row()[sc - 0x2C])
    } else if sc == 0x39 {
        Some(0x20)
    } else if sc == 0x1C {
        Some(0x0A)
    } else if sc == 0x0F {
        Some(0x09)
    } else if sc == 0x0E {
        Some(0x08)
    } else {
        None
    }
}

/// The byte that the key with scancode `sc` stands for.
pub fn scancode_to_ascii(sc: u8) -> (byte: Option<u8>)
    ensures
        byte == spec_scancode_to_ascii(sc),
{
    match sc {
        0x02 => Some(0x31),
        0x03 => Some(0x32),
        0x04 => Some(0x33),
        0x05 => Some(0x34),
        0x06 => Some(0x35),
        0x07 => Some(0x36),
        0x08 => Some(0x37),
        0x09 => Some(0x38),
        0x0A => Some(0x39),
        0x0B => Some(0x30),
        0x10 => Some(0x71),
        0x11 => Some(0x77),
        0x12 => Some(0x65),
        0x13 => Some(0x72),
        0x14 => Some(0x74),
        0x15 => Some(0x79),
        0x16 => Some(0x75),
        0x17 => Some(0x69),
        0x18 => Some(0x6F),
        0x19 => Some(0x70),
        0x1E => Some(0x61),
        0x1F => Some(0x73),
        0x20 => Some(0x64),
        0x21 => Some(0x66),
        0x22 => Some(0x67),
        0x23 => Some(0x68),
        0x24 => Some(0x6A),
        0x25 => Some(0x6B),
        0x26 => Some(0x6C),
        0x2C => Some(0x7A),
        0x2D => Some(0x78),
        0x2E => Some(0x63),
        0x2F => Some(0x76),
        0x30 => Some(0x62),
        0x31 => Some(0x6E),
        0x32 => Some(0x6D),
        0x39 => Some(0x20),
        0x1C => Some(0x0A),
        0x0F => Some(0x09),
        0x0E => Some(0x08),
        _ => None,
    }
}

/// Foreground and background colour of a cell in one byte: the background
/// in the high four bits, the foreground in the low four.
#[derive(Clone, Copy, Debug, PartialEq, Eq, Structural)]
pub struct ColorCode(pub u8);

/// The byte for a foreground and a background colour.
pub open spec fn spec_color_code(foreground: Color, background: Color) -> ColorCode {
    ColorCode((background.spec_code() << 4) | foreground.spec_code())
}

impl ColorCode {
    /// The colour code for a foreground on a background.
    pub fn new(foreground: Color, background: Color) -> (code: Self)
        ensures
            code == spec_color_code(foreground, background),
    {
        ColorCode((background.code() << 4) | foreground.code())
    }
}

/// The colour code for a foreground on a background.
pub fn get_color_code(foreground: Color, background: Color) -> (code: ColorCode)
    ensures
        code == spec_color_code(foreground, background),
{
    ColorCode::new(foreground, background)
}

/// One cell of the console.
#[derive(Clone, Copy, Debug, PartialEq, Eq, Structural)]
pub struct ScreenChar {
    pub ascii_character: u8,
    pub color_code: ColorCode,
}

/// What the console shows and where it writes next.
pub struct Screen {
    /// The 2000 cells, row by row.
    pub cells: Seq<ScreenChar>,
    pub row: int,
    pub column: int,
    pub color: ColorCode,
}

/// A space in the given colour.
pub open spec fn blank(color: ColorCode) -> ScreenChar {
    ScreenChar { ascii_character: 0x20, color_code: color }
}

impl Screen {
    /// The screen after a line feed: the cursor at the start of the next
    /// row, or, on the bottom row, every row moved up by one and the bottom
    /// row blank.
    pub open spec fn new_line(self) -> Screen {
        if self.row < BUFFER_HEIGHT - 1 {
            Screen { row: self.row + 1, column: 0, ..self }
        } else {
            Screen {
                cells: Seq::new(
                    2000,
                    |i: int|
                        if i < 1920 {
                            self.cells[i + 80]
                        } else {
                            blank(self.color)
                        },
                ),
                row: BUFFER_HEIGHT - 1,
                column: 0,
                ..self
            }
        }
    }

    /// The screen after one byte was written: a line feed for 0x0A; for any
    /// other byte the cell under the cursor, on the next line where the row
    /// is full, takes the byte in the current colour and the cursor moves
    /// one cell on.
    pub open spec fn write_byte(self, byte: u8) -> Screen {
        if byte == 0x0A {
            self.new_line()
        } else {
            let at = if self.column >= BUFFER_WIDTH {
                self.new_line()
            } else {
                self
            };
            Screen {
                cells: at.cells.update(
                    at.row * 80 + at.column,
                    ScreenChar { ascii_character: byte, color_code: at.color },
                ),
                column: at.column + 1,
                ..at
            }
        }
    }

    /// The screen after a backspace: the cursor one cell back, at the end
    /// of the row above where it was at the start of a row, and that cell
    /// blank; nothing changes in the top left corner.
    pub open spec fn backspace(self) -> Screen {
        if self.column > 0 {
            Screen {
                cells: self.cells.update(self.row * 80 + self.column - 1, blank(self.color)),
                column: self.column - 1,
                ..self
            }
        } else if self.row > 0 {
            Screen {
                cells: self.cells.update((self.row - 1) * 80 + 79, blank(self.color)),
                row: self.row - 1,
                column: 79,
                ..self
            }
        } else {
            self
        }
    }

    /// The screen after a sequence of bytes was written in `color`.
    pub open spec fn write_all(self, bytes: Seq<u8>, color: ColorCode) -> Screen
        decreases bytes.len(),
    {
        if bytes.len() == 0 {
            self
        } else {
            Screen { color, ..self.write_all(bytes.drop_last(), color) }.write_byte(bytes.last())
        }
    }

    /// The screen after `count` backspaces in `color`.
    pub open spec fn erase(self, count: nat, color: ColorCode) -> Screen
        decreases count,
    {
        if count == 0 {
            self
        } else {
            Screen { color, ..self.erase((count - 1) as nat, color) }.backspace()
        }
    }
}

/// The writes that put the hardware cursor at cell `position`: the low byte
/// to register 15 of the display controller, the high byte to register 14.
pub open spec fn cursor_program(position: int) -> Seq<PortWrite> {
    seq![
        PortWrite { port: CRTC_INDEX, value: 0x0F },
        PortWrite { port: CRTC_DATA, value: (position as usize & 0xFF) as u8 },
        PortWrite { port: CRTC_INDEX, value: 0x0E },
        PortWrite { port: CRTC_DATA, value: ((position as usize >> 8) & 0xFF) as u8 },
    ]
}

/// The console writer: the cells, the cursor and the current colour.
pub struct Writer {
    color_code: ColorCode,
    row: usize,
    column: usize,
    buffer: [ScreenChar; 2000],
}

impl View for Writer {
    type V = Screen;

    closed spec fn view(&self) -> Screen {
        Screen {
            cells: self.buffer@,
            row: self.row as int,
            column: self.column as int,
            color: self.color_code,
        }
    }
}

impl Writer {
    #[verifier::type_invariant]
    closed spec fn cursor_in_bounds(&self) -> bool {
        self.row < BUFFER_HEIGHT && self.column <= BUFFER_WIDTH
    }

    /// A blank console, white on black, with the cursor in the top left
    /// corner.
    pub fn new() -> (writer: Self)
        ensures
            writer@.row == 0,
            writer@.column == 0,
            writer@.color == spec_color_code(Color::White, Color::Black),
            writer@.cells == Seq::new(2000, |i: int| blank(spec_color_code(Color::White, Color::Black))),
    {
        let color_code = ColorCode::new(Color::White, Color::Black);
        let writer = Writer {
            color_code,
            row: 0,
            column: 0,
            buffer: [ScreenChar { ascii_character: 0x20, color_code }; 2000],
        };
        assert(writer@.cells =~= Seq::new(
            2000,
            |i: int| blank(spec_color_code(Color::White, Color::Black)),
        ));
        writer
    }

    /// Row of the cursor, 0 to 24.
    pub fn row(&self) -> (row: usize)
        ensures
            row == self@.row,
            row < BUFFER_HEIGHT,
    {
        proof {
            use_type_invariant(self);
        }
        self.row
    }

    /// Column of the cursor, 0 to 80; 80 once a row is full.
    pub fn column(&self) -> (column: usize)
        ensures
            column == self@.column,
            column <= BUFFER_WIDTH,
    {
        proof {
            use_type_invariant(self);
        }
        self.column
    }

    /// The cell at a row and column.
    pub fn cell(&self, row: usize, column: usize) -> (cell: ScreenChar)
        requires
            row < BUFFER_HEIGHT,
            column < BUFFER_WIDTH,
        ensures
            cell == self@.cells[row * 80 + column],
    {
        self.buffer[row * BUFFER_WIDTH + column]
    }

    /// Sets the colour of the bytes written from now on.
    pub fn set_color(&mut self, color_code: ColorCode)
        ensures
            final(self)@ == (Screen { color: color_code, ..old(self)@ }),
    {
        proof {
            use_type_invariant(&*self);
        }
        self.color_code = color_code;
    }

    /// The port writes that put the hardware cursor where the writer's is.
    pub fn set_cursor_position(&self) -> (program: [PortWrite; 4])
        ensures
            program@ == cursor_program(self@.row * 80 + self@.column),
    {
        proof {
            use_type_invariant(self);
        }
        let position: usize = self.row * BUFFER_WIDTH + self.column;
        let program = [
            PortWrite { port: CRTC_INDEX, value: 0x0F },
            PortWrite { port: CRTC_DATA, value: (position & 0xFF) as u8 },
            PortWrite { port: CRTC_INDEX, value: 0x0E },
            PortWrite { port: CRTC_DATA, value: ((position >> 8) & 0xFF) as u8 },
        ];
        assert(program@ =~= cursor_program(self@.row * 80 + self@.column));
        program
    }

    /// Writes one byte at the cursor.
    pub fn write_byte(&mut self, byte: u8)
        ensures
            final(self)@ == old(self)@.write_byte(byte),
    {
        proof {
            use_type_invariant(&*self);
        }
        if byte == 0x0A {
            self.new_line();
        } else {
            if self.column >= BUFFER_WIDTH {
                self.new_line();
            }
            proof {
                use_type_invariant(&*self);
            }
            let row = self.row;
            let col = self.column;
            self.buffer[row * BUFFER_WIDTH + col] = ScreenChar {
                ascii_character: byte,
                color_code: self.color_code,
            };
            self.column += 1;
        }
    }

    /// Moves to the start of the next row, scrolling on the bottom row.
    pub fn new_line(&mut self)
        ensures
            final(self)@ == old(self)@.new_line(),
    {
        proof {
            use_type_invariant(&*self);
        }
        if self.row < BUFFER_HEIGHT - 1 {
            self.row += 1;
            self.column = 0;
            return ;
        }
        let mut i: usize = 0;
        while i < 1920
            invariant
                i <= 1920,
                self.row < BUFFER_HEIGHT && self.column <= BUFFER_WIDTH,
                self.row == old(self).row,
                self.column == old(self).column,
                self.color_code == old(self).color_code,
                forall|j: int| 0 <= j < i ==> self.buffer[j] == old(self).buffer[j + 80],
                forall|j: int| i <= j < 2000 ==> self.buffer[j] == old(self).buffer[j],
            decreases 1920 - i,
        {
            let moved = self.buffer[i + BUFFER_WIDTH];
            self.buffer[i] = moved;
            i += 1;
        }
        self.clear_row(BUFFER_HEIGHT - 1);
        self.row = BUFFER_HEIGHT - 1;
        self.column = 0;
        assert(self@.cells =~= old(self)@.new_line().cells);
    }

    /// Blanks a row in the current colour.
    pub fn clear_row(&mut self, row: usize)
        requires
            row < BUFFER_HEIGHT,
        ensures
            final(self)@ == (Screen {
                cells: Seq::new(
                    2000,
                    |i: int|
                        if row * 80 <= i < row * 80 + 80 {
                            blank(old(self)@.color)
                        } else {
                            old(self)@.cells[i]
                        },
                ),
                ..old(self)@
            }),
    {
        proof {
            use_type_invariant(&*self);
        }
        let cleared = ScreenChar { ascii_character: 0x20, color_code: self.color_code };
        let mut col: usize = 0;
        while col < BUFFER_WIDTH
            invariant
                col <= BUFFER_WIDTH,
                row < BUFFER_HEIGHT,
                self.row < BUFFER_HEIGHT && self.column <= BUFFER_WIDTH,
                cleared == blank(old(self).color_code),
                self.row == old(self).row,
                self.column == old(self).column,
                self.color_code == old(self).color_code,
                forall|j: int|
                    0 <= j < 2000 ==> self.buffer[j] == (if row * 80 <= j < row * 80 + col {
                        cleared
                    } else {
                        old(self).buffer[j]
                    }),
            decreases BUFFER_WIDTH - col,
        {
            self.buffer[row * BUFFER_WIDTH + col] = cleared;
            col += 1;
        }
        assert(self@.cells =~= Seq::new(
            2000,
            |i: int|
                if row * 80 <= i < row * 80 + 80 {
                    blank(old(self)@.color)
                } else {
                    old(self)@.cells[i]
                },
        ));
    }

    /// Steps one cell back and blanks it.
    pub fn backspace(&mut self)
        ensures
            final(self)@ == old(self)@.backspace(),
    {
        proof {
            use_type_invariant(&*self);
        }
        let cleared = ScreenChar { ascii_character: 0x20, color_code: self.color_code };
        if self.column > 0 {
            self.column -= 1;
            self.buffer[self.row * BUFFER_WIDTH + self.column] = cleared;
        } else if self.row > 0 {
            self.row -= 1;
            self.column = BUFFER_WIDTH - 1;
            self.buffer[self.row * BUFFER_WIDTH + self.column] = cleared;
        }
    }
}

/// Writes one byte to the console in the given colour.
pub fn write_byte(writer: &mut Writer, byte: u8, color_code: ColorCode)
    ensures
        final(writer)@ == (Screen { color: color_code, ..old(writer)@ }).write_byte(byte),
{
    writer.set_color(color_code);
    writer.write_byte(byte);
}

/// Erases the cell before the cursor, in the given colour.
pub fn backspace(writer: &mut Writer, color_code: ColorCode)
    ensures
        final(writer)@ == (Screen { color: color_code, ..old(writer)@ }).backspace(),
{
    writer.set_color(color_code);
    writer.backspace();
}

} // verus!

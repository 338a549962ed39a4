//! The text screen: 25 rows of 80 characters, written at the bottom and
//! moving up.
use vstd::prelude::*;
use vstd::string::StringSliceAdditionalSpecFns;

verus! {

/// The sixteen colours of the text mode.
#[derive(Debug, Clone, Copy, PartialEq, Eq, Structural)]
pub enum Color {
    Black,
    Blue,
    Green,
    Cyan,
    Red,
    Magent,
    Brown,
    LightGray,
    DarkGray,
    LightBlue,
    LightGreen,
    LightCyan,
    LightRed,
    Pink,
    Yellow,
    White,
}

impl Color {
    /// The number of the colour, from 0 for black to 15 for white.
    pub open spec fn spec_code(self) -> u8 {
        match self {
            Color::Black => 0,
            Color::Blue => 1,
            Color::Green => 2,
            Color::Cyan => 3,
            Color::Red => 4,
            Color::Magent => 5,
            Color::Brown => 6,
            Color::LightGray => 7,
            Color::DarkGray => 8,
            Color::LightBlue => 9,
            Color::LightGreen => 10,
            Color::LightCyan => 11,
            Color::LightRed => 12,
            Color::Pink => 13,
            Color::Yellow => 14,
            Color::White => 15,
        }
    }

    /// The number of the colour.
    #[verifier::when_used_as_spec(spec_code)]
    pub fn code(self) -> (code: u8)
        ensures
            code == self.spec_code(),
    {
        match self {
            Color::Black => 0,
            Color::Blue => 1,
            Color::Green => 2,
            Color::Cyan => 3,
            Color::Red => 4,
            Color::Magent => 5,
            Color::Brown => 6,
            Color::LightGray => 7,
            Color::DarkGray => 8,
            Color::LightBlue => 9,
            Color::LightGreen => 10,
            Color::LightCyan => 11,
            Color::LightRed => 12,
            Color::Pink => 13,
            Color::Yellow => 14,
            Color::White => 15,
        }
    }
}

/// A foreground and a background colour in one byte: the background in the
/// high four bits, the foreground in the low four.
#[derive(Debug, Clone, Copy, PartialEq, Eq, Structural)]
pub struct ColorCode(pub u8);

impl ColorCode {
    /// Puts the two colours into one byte.
    pub fn new(foreground: Color, background: Color) -> (code: ColorCode)
        ensures
            code.0 == 16 * background.code() + foreground.code(),
    {
        let high: u8 = background.code();
        let low: u8 = foreground.code();
        assert((high << 4 | low) == 16 * high + low) by (bit_vector)
            requires
                high < 16,
                low < 16,
        ;
        ColorCode(high << 4 | low)
    }
}

/// A character on the screen, with its colours.
#[derive(Debug, Clone, Copy, PartialEq, Eq, Structural)]
pub struct ScreenChar {
    pub ascii_character: u8,
    pub color_code: ColorCode,
}

/// Rows of the screen.
pub const BUFFER_HEIGHT: usize = 25;

/// Columns of the screen.
pub const BUFFER_WIDTH: usize = 80;

/// The byte of the line feed.
pub const LINE_FEED: u8 = 0x0a;

/// The byte of the space, which fills an empty cell.
pub const SPACE: u8 = 0x20;

/// The byte shown in place of one that has no printable character.
pub const UNPRINTABLE: u8 = 0xfe;

/// The byte that is written for `byte`: the byte itself where it is a
/// printable character or a line feed.
pub open spec fn shown(byte: u8) -> u8 {
    if 0x20 <= byte <= 0x7e || byte == LINE_FEED {
        byte
    } else {
        UNPRINTABLE
    }
}

/// What a writer is, as mathematics: the column at which the next character
/// goes, the colours in use, and the rows of the screen from the top.
pub struct ScreenState {
    pub column: int,
    pub color: ColorCode,
    pub rows: Seq<Seq<ScreenChar>>,
}

impl ScreenState {
    /// The screen has all its rows and columns, and the column is on it or
    /// just behind its last.
    pub open spec fn wf(self) -> bool {
        &&& 0 <= self.column <= BUFFER_WIDTH
        &&& self.rows.len() == BUFFER_HEIGHT
        &&& forall|row: int| 0 <= row < BUFFER_HEIGHT ==> (#[trigger] self.rows[row]).len()
            == BUFFER_WIDTH
    }

    /// The cell at `row` and `col`.
    pub open spec fn cell(self, row: int, col: int) -> ScreenChar {
        self.rows[row][col]
    }

    /// An empty cell in the colours in use.
    pub open spec fn blank(self) -> ScreenChar {
        ScreenChar { ascii_character: SPACE, color_code: self.color }
    }

    /// A row of empty cells.
    pub open spec fn blank_row(self) -> Seq<ScreenChar> {
        Seq::new(BUFFER_WIDTH as nat, |col: int| self.blank())
    }

    /// The state with the cells of `row` empty.
    pub open spec fn clear_row(self, row: int) -> ScreenState {
        ScreenState { rows: self.rows.update(row, self.blank_row()), ..self }
    }

    /// The state after a line feed: every row moves up by one, the first is
    /// lost, the last is empty, and writing goes on at its start.
    pub open spec fn new_line(self) -> ScreenState {
        ScreenState { column: 0, rows: self.rows.skip(1).push(self.blank_row()), ..self }
    }

    /// The state after `byte` is written: a line feed starts a new line;
    /// any other byte goes to the last row at the column, after a line feed
    /// of its own where the row is full.
    pub open spec fn write_byte(self, byte: u8) -> ScreenState {
        if byte == LINE_FEED {
            self.new_line()
        } else {
            let room = if self.column >= BUFFER_WIDTH {
                self.new_line()
            } else {
                self
            };
            let last = BUFFER_HEIGHT - 1;
            ScreenState {
                column: room.column + 1,
                rows: room.rows.update(
                    last,
                    room.rows[last].update(
                        room.column,
                        ScreenChar { ascii_character: byte, color_code: room.color },
                    ),
                ),
                ..room
            }
        }
    }

    /// The state after the bytes of `bytes` are written in order, each as
    /// `shown` gives it.
    pub open spec fn write_string(self, bytes: Seq<u8>) -> ScreenState
        decreases bytes.len(),
    {
        if bytes.len() == 0 {
            self
        } else {
            self.write_string(bytes.drop_last()).write_byte(shown(bytes.last()))
        }
    }
}

/// The characters of the screen, row by row.
struct Buffer {
    chars: [[ScreenChar; BUFFER_WIDTH]; BUFFER_HEIGHT],
}

/// Writes text to the last row of the screen and moves the rows up when that
/// row is full.
pub struct Writer {
    column_position: usize,
    color_code: ColorCode,
    buffer: Buffer,
}

impl View for Writer {
    type V = ScreenState;

    closed spec fn view(&self) -> ScreenState {
        ScreenState {
            column: self.column_position as int,
            color: self.color_code,
            rows: Seq::new(BUFFER_HEIGHT as nat, |row: int| self.buffer.chars@[row]@),
        }
    }
}

impl Writer {
    /// Creates a writer in the colours `color_code` on an empty screen.
    pub fn new(color_code: ColorCode) -> (writer: Self)
        ensures
            writer@.wf(),
            writer@.column == 0,
            writer@.color == color_code,
            forall|row: int, col: int|
                0 <= row < BUFFER_HEIGHT && 0 <= col < BUFFER_WIDTH ==> writer@.cell(row, col)
                    == writer@.blank(),
    {
        let blank = ScreenChar { ascii_character: SPACE, color_code };
        Writer {
            column_position: 0,
            color_code,
            buffer: Buffer { chars: [[blank; BUFFER_WIDTH]; BUFFER_HEIGHT] },
        }
    }

    /// The column at which the next character goes.
    pub fn column_position(&self) -> (column: usize)
        ensures
            column == self@.column,
    {
        self.column_position
    }

    /// The character at `row` and `col`.
    pub fn screen_char(&self, row: usize, col: usize) -> (cell: ScreenChar)
        requires
            row < BUFFER_HEIGHT,
            col < BUFFER_WIDTH,
        ensures
            cell == self@.cell(row as int, col as int),
    {
        self.buffer.chars[row][col]
    }

    /// Writes `byte` at the column in the last row; a line feed starts a new
    /// line instead, and so does any byte for which the row has no room.
    pub fn write_byte(&mut self, byte: u8)
        requires
            old(self)@.wf(),
        ensures
            final(self)@ == old(self)@.write_byte(byte),
            final(self)@.wf(),
    {
        if byte == LINE_FEED {
            self.new_line();
        } else {
            if self.column_position >= BUFFER_WIDTH {
                self.new_line();
            }
            let ghost room = self@;
            let row = BUFFER_HEIGHT - 1;
            let col = self.column_position;
            let color_code = self.color_code;
            self.buffer.chars[row][col] = ScreenChar { ascii_character: byte, color_code };
            self.column_position = self.column_position + 1;
            assert(self@.rows =~~= room.rows.update(
                row as int,
                room.rows[row as int].update(
                    col as int,
                    ScreenChar { ascii_character: byte, color_code },
                ),
            ));
        }
    }

    /// Moves every row up by one and empties the last.
    fn new_line(&mut self)
        requires
            old(self)@.wf(),
        ensures
            final(self)@ == old(self)@.new_line(),
            final(self)@.wf(),
    {
        let ghost before = self@;
        let mut row: usize = 1;
        while row < BUFFER_HEIGHT
            invariant
                1 <= row <= BUFFER_HEIGHT,
                self@.column == before.column,
                self@.color == before.color,
                before.wf(),
                self@.wf(),
                forall|r: int| 0 <= r < row - 1 ==> self@.rows[r] == before.rows[r + 1],
                forall|r: int| row - 1 <= r < BUFFER_HEIGHT ==> self@.rows[r] == before.rows[r],
            decreases BUFFER_HEIGHT - row,
        {
            let ghost above: int = row - 1;
            let mut col: usize = 0;
            while col < BUFFER_WIDTH
                invariant
                    1 <= row < BUFFER_HEIGHT,
                    above == row - 1,
                    col <= BUFFER_WIDTH,
                    self@.column == before.column,
                    self@.color == before.color,
                    before.wf(),
                    self@.wf(),
                    forall|r: int| 0 <= r < above ==> self@.rows[r] == before.rows[r + 1],
                    forall|r: int| row <= r < BUFFER_HEIGHT ==> self@.rows[r] == before.rows[r],
                    forall|c: int|
                        0 <= c < col ==> self@.rows[above][c] == before.rows[row as int][c],
                    forall|c: int|
                        col <= c < BUFFER_WIDTH ==> self@.rows[above][c] == before.rows[above][c],
                decreases BUFFER_WIDTH - col,
            {
                let ghost copied = self@;
                let character = self.buffer.chars[row][col];
                self.buffer.chars[row - 1][col] = character;
                assert(self@.rows =~~= copied.rows.update(
                    row - 1,
                    copied.rows[row - 1].update(col as int, character),
                ));
                col = col + 1;
            }
            assert(self@.rows[row - 1] =~= before.rows[row as int]);
            row = row + 1;
        }
        self.clear_row(BUFFER_HEIGHT - 1);
        self.column_position = 0;
        assert(self@.rows =~= before.new_line().rows);
    }

    /// Fills `row` with spaces.
    fn clear_row(&mut self, row: usize)
        requires
            old(self)@.wf(),
            row < BUFFER_HEIGHT,
        ensures
            final(self)@ == old(self)@.clear_row(row as int),
            final(self)@.wf(),
    {
        let ghost before = self@;
        let blank = ScreenChar { ascii_character: SPACE, color_code: self.color_code };
        let mut col: usize = 0;
        while col < BUFFER_WIDTH
            invariant
                col <= BUFFER_WIDTH,
                row < BUFFER_HEIGHT,
                before.wf(),
                self@.wf(),
                blank == before.blank(),
                self@.column == before.column,
                self@.color == before.color,
                forall|r: int|
                    0 <= r < BUFFER_HEIGHT && r != row ==> self@.rows[r] == before.rows[r],
                forall|c: int| 0 <= c < col ==> self@.rows[row as int][c] == blank,
            decreases BUFFER_WIDTH - col,
        {
            let ghost cleared = self@;
            self.buffer.chars[row][col] = blank;
            assert(self@.rows =~~= cleared.rows.update(
                row as int,
                cleared.rows[row as int].update(col as int, blank),
            ));
            col = col + 1;
        }
        assert(self@.rows[row as int] =~= before.blank_row());
        assert(self@.rows =~= before.clear_row(row as int).rows);
    }

    /// Writes the bytes of `s` in order, each byte that is neither a
    /// printable character nor a line feed as `UNPRINTABLE`.
    pub fn write_string(&mut self, s: &str)
        requires
            old(self)@.wf(),
        ensures
            final(self)@ == old(self)@.write_string(s.spec_bytes()),
            final(self)@.wf(),
    {
        let ghost before = self@;
        let bytes = s.as_bytes();
        let mut written: usize = 0;
        while written < bytes.len()
            invariant
                written <= bytes.len(),
                bytes@ == s.spec_bytes(),
                self@.wf(),
                self@ == before.write_string(bytes@.take(written as int)),
            decreases bytes.len() - written,
        {
            let byte = bytes[written];
            proof {
                assert(bytes@.take(written + 1).drop_last() == bytes@.take(written as int));
            }
            if (0x20 <= byte && byte <= 0x7e) || byte == LINE_FEED {
                // printable ASCII byte or newline
                self.write_byte(byte);
            } else {
                // not part of printable ASCII range
                self.write_byte(UNPRINTABLE);
            }
            written = written + 1;
        }
        assert(bytes@.take(written as int) == bytes@);
    }
}

} // verus!

//! The VGA text screen and the writer that prints to it. The screen is kept as
//! 25 rows of 80 characters; the writer prints on the bottom row and scrolls
//! the screen up when a line ends or the row is full.

use vstd::prelude::*;
use vstd::string::StringSliceAdditionalSpecFns;

verus! {

/// The number of rows on the screen.
pub const BUFFER_HEIGHT: usize = 25;

/// The number of characters in a row.
pub const BUFFER_WIDTH: usize = 80;

/// The sixteen colors of the VGA text mode, in the order of their numbers.
#[derive(Debug, Clone, Copy, PartialEq, Eq, Structural)]
pub enum Color {
    Black,
    Blue,
    Green,
    Cyan,
    Red,
    Magenta,
    Brown,
    LightGray,
    DarkGray,
    LightBlue,
    LightGreen,
    LightCyan,
    LightRed,
    Pink,
    Yellow,
    White,
}

/// The number of a color, from 0 (`Black`) to 15 (`White`).
pub open spec fn color_number(c: Color) -> u8 {
    match c {
        Color::Black => 0,
        Color::Blue => 1,
        Color::Green => 2,
        Color::Cyan => 3,
        Color::Red => 4,
        Color::Magenta => 5,
        Color::Brown => 6,
        Color::LightGray => 7,
        Color::DarkGray => 8,
        Color::LightBlue => 9,
        Color::LightGreen => 10,
        Color::LightCyan => 11,
        Color::LightRed => 12,
        Color::Pink => 13,
        Color::Yellow => 14,
        Color::White => 15,
    }
}

/// The color with number `n`, for `n` below 16; `White` above.
pub open spec fn color_with_number(n: u8) -> Color {
    if n == 0 {
        Color::Black
    } else if n == 1 {
        Color::Blue
    } else if n == 2 {
        Color::Green
    } else if n == 3 {
        Color::Cyan
    } else if n == 4 {
        Color::Red
    } else if n == 5 {
        Color::Magenta
    } else if n == 6 {
        Color::Brown
    } else if n == 7 {
        Color::LightGray
    } else if n == 8 {
        Color::DarkGray
    } else if n == 9 {
        Color::LightBlue
    } else if n == 10 {
        Color::LightGreen
    } else if n == 11 {
        Color::LightCyan
    } else if n == 12 {
        Color::LightRed
    } else if n == 13 {
        Color::Pink
    } else if n == 14 {
        Color::Yellow
    } else {
        Color::White
    }
}

impl Color {
    /// The color's number.
    pub fn number(self) -> (n: u8)
        ensures
            n == color_number(self),
            n < 16,
    {
        match self {
            Color::Black => 0,
            Color::Blue => 1,
            Color::Green => 2,
            Color::Cyan => 3,
            Color::Red => 4,
            Color::Magenta => 5,
            Color::Brown => 6,
            Color::LightGray => 7,
            Color::DarkGray => 8,
            Color::LightBlue => 9,
            Color::LightGreen => 10,
            Color::LightCyan => 11,
            Color::LightRed => 12,
            Color::Pink => 13,
            Color::Yellow => 14,
            Color::White => 15,
        }
    }

    /// The color with number `n`; `White` where `n` is 16 or more.
    pub fn from_number(n: u8) -> (c: Color)
        ensures
            c == color_with_number(n),
    {
        match n {
            0 => Color::Black,
            1 => Color::Blue,
            2 => Color::Green,
            3 => Color::Cyan,
            4 => Color::Red,
            5 => Color::Magenta,
            6 => Color::Brown,
            7 => Color::LightGray,
            8 => Color::DarkGray,
            9 => Color::LightBlue,
            10 => Color::LightGreen,
            11 => Color::LightCyan,
            12 => Color::LightRed,
            13 => Color::Pink,
            14 => Color::Yellow,
            _ => Color::White,
        }
    }
}

/// A foreground and a background color in one byte: the background's number
/// in the high four bits, the foreground's in the low four.
#[derive(Debug, Clone, Copy, PartialEq, Eq, Structural)]
pub struct ColorCode(pub u8);

impl ColorCode {
    /// The code of `foreground` on `background`.
    pub open spec fn new_spec(foreground: Color, background: Color) -> ColorCode {
        ColorCode((color_number(background) * 16 + color_number(foreground)) as u8)
    }

    /// The code of `foreground` on `background`.
    pub fn new(foreground: Color, background: Color) -> (code: ColorCode)
        ensures
            code.0 == color_number(background) * 16 + color_number(foreground),
            code == ColorCode::new_spec(foreground, background),
    {
        let f = foreground.number();
        let b = background.number();
        assert((b << 4u8) | f == b * 16 + f) by (bit_vector)
            requires
                b < 16,
                f < 16,
        ;
        ColorCode((b << 4u8) | f)
    }
}

/// The foreground of a code: the color numbered by its low four bits.
pub open spec fn foreground_of(code: ColorCode) -> Color {
    color_with_number(code.0 % 16)
}

/// The background of a code: the color numbered by its high four bits, where
/// that number is below 8, and `Black` otherwise.
pub open spec fn background_of(code: ColorCode) -> Color {
    if code.0 / 16 < 8 {
        color_with_number(code.0 / 16)
    } else {
        Color::Black
    }
}

/// The foreground and background colors of a code.
pub fn decode_color(code: ColorCode) -> (colors: (Color, Color))
    ensures
        colors == (foreground_of(code), background_of(code)),
{
    let v = code.0;
    assert(v & 0x0f == v % 16 && (v >> 4u8) & 0x0f == v / 16) by (bit_vector);
    let fg = Color::from_number(v & 0x0f);
    let high = (v >> 4u8) & 0x0f;
    let bg = if high < 8 {
        Color::from_number(high)
    } else {
        Color::Black
    };
    (fg, bg)
}

/// Reading back the colors a code was made of gives the foreground, and the
/// background where its number is below 8; a brighter background reads back
/// as `Black`.
pub proof fn lemma_color_code_round_trip(fg: Color, bg: Color)
    ensures
        foreground_of(ColorCode::new_spec(fg, bg)) == fg,
        background_of(ColorCode::new_spec(fg, bg)) == if color_number(bg) < 8 {
            bg
        } else {
            Color::Black
        },
{
    let v = ColorCode::new_spec(fg, bg).0;
    assert(v % 16 == color_number(fg));
    assert(v / 16 == color_number(bg));
}

/// A character on the screen and its colors.
#[derive(Debug, Clone, Copy, PartialEq, Eq, Structural)]
pub struct ScreenChar {
    pub ascii_character: u8,
    pub color_code: ColorCode,
}

/// What a writer shows: the column of the bottom row where it prints next, the
/// colors it prints in, and the screen's cells, row by row from the top.
pub ghost struct WriterState {
    pub column: int,
    pub color: ColorCode,
    pub cells: Seq<ScreenChar>,
}

/// A space in the given colors.
pub open spec fn blank(color: ColorCode) -> ScreenChar {
    ScreenChar { ascii_character: 32u8, color_code: color }
}

/// A row of spaces in the given colors.
pub open spec fn blank_row(color: ColorCode) -> Seq<ScreenChar> {
    Seq::new(BUFFER_WIDTH as nat, |i: int| blank(color))
}

/// The index of the cell at `row` and `col` among the screen's cells.
pub open spec fn cell_index(row: int, col: int) -> int {
    row * (BUFFER_WIDTH as int) + col
}

/// The state after a line ends: every row moves up by one, the top row is
/// lost, the bottom row is blank and printing starts again at its first column.
pub open spec fn scrolled(s: WriterState) -> WriterState {
    WriterState { column: 0, color: s.color, cells: s.cells.skip(BUFFER_WIDTH as int) + blank_row(s.color) }
}

/// The state after `byte` is written: a newline ends the line; any other byte
/// goes to the next column of the bottom row, after the line is ended where
/// the row is full.
pub open spec fn put_byte(s: WriterState, byte: u8) -> WriterState {
    if byte == 10 {
        scrolled(s)
    } else {
        let t = if s.column >= BUFFER_WIDTH { scrolled(s) } else { s };
        WriterState {
            column: t.column + 1,
            color: t.color,
            cells: t.cells.update(
                cell_index(BUFFER_HEIGHT - 1, t.column),
                ScreenChar { ascii_character: byte, color_code: t.color },
            ),
        }
    }
}

/// The state after `bytes` are written one by one.
pub open spec fn put_bytes(s: WriterState, bytes: Seq<u8>) -> WriterState
    decreases bytes.len(),
{
    if bytes.len() == 0 {
        s
    } else {
        put_byte(put_bytes(s, bytes.drop_last()), bytes.last())
    }
}

/// The byte that is shown for `b` when text is written: printable ASCII and
/// the newline as they are, any other byte as the block character 0xfe.
pub open spec fn shown_byte(b: u8) -> u8 {
    if (0x20 <= b && b <= 0x7e) || b == 10 {
        b
    } else {
        0xfe
    }
}

/// The bytes that are shown for a text's bytes.
pub open spec fn shown(bytes: Seq<u8>) -> Seq<u8> {
    bytes.map_values(|b: u8| shown_byte(b))
}

/// Prints to the screen: one character after another on the bottom row.
pub struct Writer {
    column_position: usize,
    color_code: ColorCode,
    buffer: Vec<ScreenChar>,
}

impl View for Writer {
    type V = WriterState;

    closed spec fn view(&self) -> WriterState {
        WriterState {
            column: self.column_position as int,
            color: self.color_code,
            cells: self.buffer@,
        }
    }
}

/// Whether a state is one a writer can be in: a full screen and a column
/// no further than just past the end of the row.
pub open spec fn valid_state(s: WriterState) -> bool {
    &&& s.cells.len() == BUFFER_HEIGHT * BUFFER_WIDTH
    &&& 0 <= s.column <= BUFFER_WIDTH
}

/// The state of a new writer: white on black, at the start of the bottom row
/// of a blank screen.
pub open spec fn initial_state() -> WriterState {
    let color = ColorCode((15 as u8));
    WriterState {
        column: 0,
        color: color,
        cells: Seq::new((BUFFER_HEIGHT * BUFFER_WIDTH) as nat, |i: int| blank(color)),
    }
}

impl Writer {
    /// Whether the writer's screen is whole and its column in range.
    pub open spec fn wf(&self) -> bool {
        valid_state(self@)
    }

    /// A writer printing white on black on a blank screen.
    pub fn new() -> (w: Writer)
        ensures
            w.wf(),
            w@ == initial_state(),
    {
        let color = ColorCode::new(Color::White, Color::Black);
        let blank_char = ScreenChar { ascii_character: 32u8, color_code: color };
        let mut buffer: Vec<ScreenChar> = Vec::new();
        let mut i: usize = 0;
        while i < BUFFER_HEIGHT * BUFFER_WIDTH
            invariant
                i <= BUFFER_HEIGHT * BUFFER_WIDTH,
                buffer@ =~= Seq::new(i as nat, |k: int| blank(color)),
                blank_char == blank(color),
            decreases BUFFER_HEIGHT * BUFFER_WIDTH - i,
        {
            buffer.push(blank_char);
            i = i + 1;
        }
        Writer { column_position: 0, color_code: color, buffer }
    }

    /// A writer printing white on black on a screen that already shows
    /// `cells` (row by row), starting at the first column of the bottom row.
    pub fn on_screen(cells: Vec<ScreenChar>) -> (w: Writer)
        requires
            cells@.len() == BUFFER_HEIGHT * BUFFER_WIDTH,
        ensures
            w.wf(),
            w@ == (WriterState {
                column: 0,
                color: ColorCode::new_spec(Color::White, Color::Black),
                cells: cells@,
            }),
    {
        Writer { column_position: 0, color_code: ColorCode::new(Color::White, Color::Black), buffer: cells }
    }

    /// Writes one byte: a newline ends the line; any other byte is put at the
    /// next column of the bottom row, after the line is ended where the row is full.
    pub fn write_byte(&mut self, byte: u8)
        requires
            old(self).wf(),
        ensures
            final(self).wf(),
            final(self)@ == put_byte(old(self)@, byte),
    {
        if byte == 10u8 {
            self.new_line();
        } else {
            if self.column_position >= BUFFER_WIDTH {
                self.new_line();
            }
            let row = BUFFER_HEIGHT - 1;
            let col = self.column_position;
            let color_code = self.color_code;
            self.buffer.set(row * BUFFER_WIDTH + col, ScreenChar { ascii_character: byte, color_code });
            self.column_position = self.column_position + 1;
        }
    }

    /// Writes the bytes of `s`, each byte that is neither printable ASCII nor a
    /// newline as the block character 0xfe.
    pub fn write_string(&mut self, s: &str)
        requires
            old(self).wf(),
        ensures
            final(self).wf(),
            final(self)@ == put_bytes(old(self)@, shown(s.spec_bytes())),
    {
        let bytes = s.as_bytes();
        self.write_bytes(bytes);
    }

    /// Writes `bytes` as `write_string` writes the bytes of a text.
    pub fn write_bytes(&mut self, bytes: &[u8])
        requires
            old(self).wf(),
        ensures
            final(self).wf(),
            final(self)@ == put_bytes(old(self)@, shown(bytes@)),
    {
        let mut i: usize = 0;
        while i < bytes.len()
            invariant
                i <= bytes@.len(),
                self.wf(),
                self@ == put_bytes(old(self)@, shown(bytes@.take(i as int))),
            decreases bytes@.len() - i,
        {
            let byte = bytes[i];
            if (0x20 <= byte && byte <= 0x7e) || byte == 10u8 {
                self.write_byte(byte);
            } else {
                self.write_byte(0xfe);
            }
            assert(shown(bytes@.take(i + 1)).drop_last() =~= shown(bytes@.take(i as int)));
            i = i + 1;
        }
        assert(bytes@.take(i as int) =~= bytes@);
    }

    /// The character at `row` and `col` of the screen.
    pub fn cell(&self, row: usize, col: usize) -> (c: ScreenChar)
        requires
            self.wf(),
            row < BUFFER_HEIGHT,
            col < BUFFER_WIDTH,
        ensures
            c == self@.cells[cell_index(row as int, col as int)],
    {
        self.buffer[row * BUFFER_WIDTH + col]
    }

    /// The column of the bottom row where the next character goes.
    pub fn column(&self) -> (col: usize)
        ensures
            col == self@.column,
    {
        self.column_position
    }

    /// The colors the writer prints in.
    pub fn color_code(&self) -> (code: ColorCode)
        ensures
            code == self@.color,
    {
        self.color_code
    }

    /// Moves every row up by one, blanks the bottom row and goes to its start.
    fn new_line(&mut self)
        requires
            old(self).wf(),
        ensures
            final(self).wf(),
            final(self)@ == scrolled(old(self)@),
    {
        let mut i: usize = BUFFER_WIDTH;
        while i < BUFFER_HEIGHT * BUFFER_WIDTH
            invariant
                BUFFER_WIDTH <= i <= BUFFER_HEIGHT * BUFFER_WIDTH,
                self.buffer@.len() == BUFFER_HEIGHT * BUFFER_WIDTH,
                self.column_position == old(self).column_position,
                self.color_code == old(self).color_code,
                forall|k: int| 0 <= k < i - BUFFER_WIDTH ==> self.buffer@[k] == old(self).buffer@[k + BUFFER_WIDTH],
                forall|k: int| i - BUFFER_WIDTH <= k < BUFFER_HEIGHT * BUFFER_WIDTH ==> self.buffer@[k] == old(self).buffer@[k],
            decreases BUFFER_HEIGHT * BUFFER_WIDTH - i,
        {
            let character = self.buffer[i];
            self.buffer.set(i - BUFFER_WIDTH, character);
            i = i + 1;
        }
        self.clear_row(BUFFER_HEIGHT - 1);
        self.column_position = 0;
        assert(self.buffer@ =~= scrolled(old(self)@).cells);
    }

    /// Fills row `row` with spaces in the writer's colors.
    fn clear_row(&mut self, row: usize)
        requires
            old(self).wf(),
            row < BUFFER_HEIGHT,
        ensures
            final(self).wf(),
            final(self).column_position == old(self).column_position,
            final(self).color_code == old(self).color_code,
            forall|k: int|
                0 <= k < BUFFER_HEIGHT * BUFFER_WIDTH ==> #[trigger] final(self).buffer@[k] == if cell_index(
                    row as int,
                    0,
                ) <= k < cell_index(row as int, BUFFER_WIDTH as int) {
                    blank(old(self).color_code)
                } else {
                    old(self).buffer@[k]
                },
    {
        let blank_char = ScreenChar { ascii_character: 32u8, color_code: self.color_code };
        let mut col: usize = 0;
        while col < BUFFER_WIDTH
            invariant
                row < BUFFER_HEIGHT,
                col <= BUFFER_WIDTH,
                blank_char == blank(old(self).color_code),
                self.buffer@.len() == BUFFER_HEIGHT * BUFFER_WIDTH,
                self.column_position == old(self).column_position,
                self.color_code == old(self).color_code,
                forall|k: int|
                    0 <= k < BUFFER_HEIGHT * BUFFER_WIDTH ==> #[trigger] self.buffer@[k] == if cell_index(
                        row as int,
                        0,
                    ) <= k < cell_index(row as int, col as int) {
                        blank(old(self).color_code)
                    } else {
                        old(self).buffer@[k]
                    },
            decreases BUFFER_WIDTH - col,
        {
            self.buffer.set(row * BUFFER_WIDTH + col, blank_char);
            col = col + 1;
        }
    }
}

/// Makes the writer print `fg` on `bg` from now on.
pub fn set_color(writer: &mut Writer, fg: Color, bg: Color)
    requires
        old(writer).wf(),
    ensures
        final(writer).wf(),
        final(writer)@ == (WriterState { color: ColorCode::new_spec(fg, bg), ..old(writer)@ }),
{
    writer.color_code = ColorCode::new(fg, bg);
}

/// The colors the writer prints in, as `decode_color` reads its code.
pub fn get_color(writer: &Writer) -> (colors: (Color, Color))
    ensures
        colors == (foreground_of(writer@.color), background_of(writer@.color)),
{
    decode_color(writer.color_code)
}

/// Makes the writer print white on black from now on.
pub fn reset_color(writer: &mut Writer)
    requires
        old(writer).wf(),
    ensures
        final(writer).wf(),
        final(writer)@ == (WriterState {
            color: ColorCode::new_spec(Color::White, Color::Black),
            ..old(writer)@
        }),
{
    writer.color_code = ColorCode::new(Color::White, Color::Black);
}

/// `n` newlines.
pub open spec fn newlines(n: nat) -> Seq<u8> {
    Seq::new(n, |i: int| 10u8)
}

/// Clears the screen by ending as many lines as it has rows.
pub fn clear_screen(writer: &mut Writer)
    requires
        old(writer).wf(),
    ensures
        final(writer).wf(),
        final(writer)@ == put_bytes(old(writer)@, newlines(BUFFER_HEIGHT as nat)),
{
    let mut i: usize = 0;
    while i < BUFFER_HEIGHT
        invariant
            i <= BUFFER_HEIGHT,
            writer.wf(),
            writer@ == put_bytes(old(writer)@, newlines(i as nat)),
        decreases BUFFER_HEIGHT - i,
    {
        writer.write_byte(10u8);
        assert(newlines((i + 1) as nat).drop_last() =~= newlines(i as nat));
        i = i + 1;
    }
}

/// After `k` newlines (at most one per row) the bottom `k` rows are blank in
/// the writer's colors, the rows above hold what was `k` rows further down,
/// and printing starts at the first column.
pub proof fn lemma_newlines(s: WriterState, k: nat)
    requires
        valid_state(s),
        k <= BUFFER_HEIGHT,
    ensures
        valid_state(put_bytes(s, newlines(k))),
        put_bytes(s, newlines(k)).color == s.color,
        k > 0 ==> put_bytes(s, newlines(k)).column == 0,
        forall|j: int|
            0 <= j < BUFFER_HEIGHT * BUFFER_WIDTH ==> #[trigger] put_bytes(s, newlines(k)).cells[j] == if j
                < (BUFFER_HEIGHT - k) * BUFFER_WIDTH {
                s.cells[j + k * BUFFER_WIDTH]
            } else {
                blank(s.color)
            },
    decreases k,
{
    if k > 0 {
        let k1 = (k - 1) as nat;
        lemma_newlines(s, k1);
        assert(newlines(k).drop_last() =~= newlines(k1));
        let prev = put_bytes(s, newlines(k1));
        let next = put_bytes(s, newlines(k));
        assert(next == scrolled(prev));
        assert forall|j: int| 0 <= j < BUFFER_HEIGHT * BUFFER_WIDTH implies #[trigger] next.cells[j]
            == if j < (BUFFER_HEIGHT - k) * BUFFER_WIDTH {
            s.cells[j + k * BUFFER_WIDTH]
        } else {
            blank(s.color)
        } by {
            if j < (BUFFER_HEIGHT - 1) * BUFFER_WIDTH {
                assert(next.cells[j] == prev.cells[j + BUFFER_WIDTH]);
            } else {
                assert(next.cells[j] == blank_row(prev.color)[j - (BUFFER_HEIGHT - 1) * BUFFER_WIDTH]);
            }
        }
    } else {
        assert(newlines(0) =~= Seq::<u8>::empty());
    }
}

/// Clearing the screen leaves every cell a space in the writer's colors, with
/// printing at the start of the bottom row.
pub proof fn lemma_clear_screen_blanks(s: WriterState)
    requires
        valid_state(s),
    ensures
        put_bytes(s, newlines(BUFFER_HEIGHT as nat)).column == 0,
        put_bytes(s, newlines(BUFFER_HEIGHT as nat)).cells == Seq::new(
            (BUFFER_HEIGHT * BUFFER_WIDTH) as nat,
            |j: int| blank(s.color),
        ),
{
    lemma_newlines(s, BUFFER_HEIGHT as nat);
    assert(put_bytes(s, newlines(BUFFER_HEIGHT as nat)).cells =~= Seq::new(
        (BUFFER_HEIGHT * BUFFER_WIDTH) as nat,
        |j: int| blank(s.color),
    ));
}

/// Bytes without a newline that fit in what is left of the bottom row appear
/// there, one per column from the writer's column on, in the writer's colors;
/// no other cell changes, and the column moves past them.
pub proof fn lemma_write_fits_in_row(s: WriterState, bytes: Seq<u8>)
    requires
        valid_state(s),
        s.column + bytes.len() <= BUFFER_WIDTH,
        forall|k: int| 0 <= k < bytes.len() ==> bytes[k] != 10,
    ensures
        put_bytes(s, bytes).column == s.column + bytes.len(),
        put_bytes(s, bytes).color == s.color,
        put_bytes(s, bytes).cells.len() == s.cells.len(),
        forall|k: int|
            0 <= k < bytes.len() ==> put_bytes(s, bytes).cells[cell_index(
                BUFFER_HEIGHT - 1,
                s.column + k,
            )] == (ScreenChar { ascii_character: bytes[k], color_code: s.color }),
        forall|j: int|
            0 <= j < s.cells.len() && !(cell_index(BUFFER_HEIGHT - 1, s.column) <= j < cell_index(
                BUFFER_HEIGHT - 1,
                s.column + bytes.len(),
            )) ==> put_bytes(s, bytes).cells[j] == s.cells[j],
    decreases bytes.len(),
{
    if bytes.len() > 0 {
        let rest = bytes.drop_last();
        lemma_write_fits_in_row(s, rest);
        assert forall|k: int| 0 <= k < rest.len() implies rest[k] == bytes[k] by {}
    }
}

/// Writes "abc" and a newline.
pub fn test_write(writer: &mut Writer)
    requires
        old(writer).wf(),
    ensures
        final(writer).wf(),
        final(writer)@ == put_bytes(old(writer)@, seq![97u8, 98u8, 99u8, 10u8]),
{
    writer.write_byte(97u8);
    writer.write_byte(98u8);
    writer.write_byte(99u8);
    writer.write_byte(10u8);
    proof {
        let s = seq![97u8, 98u8, 99u8, 10u8];
        assert(s.drop_last() =~= seq![97u8, 98u8, 99u8]);
        assert(s.drop_last().drop_last() =~= seq![97u8, 98u8]);
        assert(s.drop_last().drop_last().drop_last() =~= seq![97u8]);
        assert(s.drop_last().drop_last().drop_last().drop_last() =~= Seq::<u8>::empty());
        reveal_with_fuel(put_bytes, 5);
    }
}

} // verus!

verus! {

/// Text is shown as it is where it is printable ASCII or a newline; any other
/// byte shows as the block character 0xfe, so what is shown is always
/// printable, a newline or a block.
pub proof fn lemma_shown_bytes(b: u8)
    ensures
        (32 <= b <= 126 || b == 10) ==> shown_byte(b) == b,
        !(32 <= b <= 126 || b == 10) ==> shown_byte(b) == 0xfe,
        32 <= shown_byte(b) <= 126 || shown_byte(b) == 10 || shown_byte(b) == 0xfe,
{
}

} // verus!

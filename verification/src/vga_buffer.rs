//! The text console, modelled as an owned screen buffer.
//!
//! The real console is a fixed 25 by 80 memory window of
//! character-and-color cells; the model holds those cells as plain
//! values. Writing always happens on the bottom row; a newline, or
//! running past the row's end, shifts every row up by one, dropping the
//! top row off-screen.

use vstd::prelude::*;
use vstd::string::StringSliceAdditionalSpecFns;

verus! {

/// Rows of the screen buffer.
pub const BUFFER_HEIGHT: usize = 25;

/// Columns of the screen buffer.
pub const BUFFER_WIDTH: usize = 80;

/// The sixteen console colors.
#[derive(PartialEq, Eq, Structural, Clone, Copy, Debug)]
pub enum Color {
    Black,
    Blue,
    Green,
    Cyan,
    Red,
    Magenta,
    Brown,
    LightGray,
    DarkGray,
    LightBlue,
    LightGreen,
    LightCyan,
    LightRed,
    Pink,
    Yellow,
    White,
}

impl Color {
    /// The color's four-bit hardware number.
    pub open spec fn spec_as_u8(self) -> u8 {
        match self {
            Color::Black => 0,
            Color::Blue => 1,
            Color::Green => 2,
            Color::Cyan => 3,
            Color::Red => 4,
            Color::Magenta => 5,
            Color::Brown => 6,
            Color::LightGray => 7,
            Color::DarkGray => 8,
            Color::LightBlue => 9,
            Color::LightGreen => 10,
            Color::LightCyan => 11,
            Color::LightRed => 12,
            Color::Pink => 13,
            Color::Yellow => 14,
            Color::White => 15,
        }
    }

    /// The color's four-bit hardware number.
    pub fn as_u8(self) -> (r: u8)
        ensures
            r == self.spec_as_u8(),
            r <= 15,
    {
        match self {
            Color::Black => 0,
            Color::Blue => 1,
            Color::Green => 2,
            Color::Cyan => 3,
            Color::Red => 4,
            Color::Magenta => 5,
            Color::Brown => 6,
            Color::LightGray => 7,
            Color::DarkGray => 8,
            Color::LightBlue => 9,
            Color::LightGreen => 10,
            Color::LightCyan => 11,
            Color::LightRed => 12,
            Color::Pink => 13,
            Color::Yellow => 14,
            Color::White => 15,
        }
    }
}

/// A packed foreground/background color pair: background in the high
/// four bits, foreground in the low four.
#[derive(PartialEq, Eq, Structural, Clone, Copy, Debug)]
pub struct ColorCode(pub u8);

impl ColorCode {
    /// Pack a foreground and a background color.
    pub fn new(foreground: Color, background: Color) -> (r: ColorCode)
        ensures
            r.0 == background.spec_as_u8() * 16 + foreground.spec_as_u8(),
    {
        let fg = foreground.as_u8();
        let bg = background.as_u8();
        proof {
            assert(fg <= 15 && bg <= 15 ==> ((bg << 4) | fg) == bg * 16 + fg) by (bit_vector);
        }
        ColorCode((bg << 4) | fg)
    }
}

/// One screen cell: a code-page byte and its colors.
#[derive(PartialEq, Eq, Structural, Clone, Copy, Debug)]
pub struct ScreenChar {
    pub ascii_char: u8,
    pub color_code: ColorCode,
}

/// A blank cell in the given colors.
pub open spec fn spec_blank(cc: ColorCode) -> ScreenChar {
    ScreenChar { ascii_char: 0x20, color_code: cc }
}

/// A row of blank cells.
pub open spec fn spec_blank_row(cc: ColorCode) -> Seq<ScreenChar> {
    Seq::new(80, |j: int| spec_blank(cc))
}

/// The buffer after a line feed: every row moves up one, the top row
/// falls off, and the bottom row is blanked.
pub open spec fn spec_new_line(b: Seq<Seq<ScreenChar>>, cc: ColorCode) -> Seq<Seq<ScreenChar>> {
    b.subrange(1, 25).push(spec_blank_row(cc))
}

/// The buffer and column after one byte is written: a line feed shifts
/// the screen; any other byte lands on the bottom row at the current
/// column, wrapping to a fresh line first when the row is full.
pub open spec fn spec_write_byte(
    b: Seq<Seq<ScreenChar>>,
    col: int,
    cc: ColorCode,
    byte: u8,
) -> (Seq<Seq<ScreenChar>>, int) {
    if byte == 0x0a {
        (spec_new_line(b, cc), 0)
    } else {
        let wrapped = if col >= 80 {
            (spec_new_line(b, cc), 0int)
        } else {
            (b, col)
        };
        (
            wrapped.0.update(
                24,
                wrapped.0[24].update(wrapped.1, ScreenChar { ascii_char: byte, color_code: cc }),
            ),
            wrapped.1 + 1,
        )
    }
}

/// A byte as the screen shows it: printable code-page bytes and the line
/// feed pass through, anything else becomes the replacement glyph.
pub open spec fn spec_printable(byte: u8) -> u8 {
    if (0x20 <= byte && byte <= 0x7e) || byte == 0x0a {
        byte
    } else {
        0xfe
    }
}

/// The buffer and column after a byte string is written, left to right.
pub open spec fn spec_write_bytes(
    b: Seq<Seq<ScreenChar>>,
    col: int,
    cc: ColorCode,
    s: Seq<u8>,
) -> (Seq<Seq<ScreenChar>>, int)
    decreases s.len(),
{
    if s.len() == 0 {
        (b, col)
    } else {
        let prev = spec_write_bytes(b, col, cc, s.drop_last());
        spec_write_byte(prev.0, prev.1, cc, spec_printable(s.last()))
    }
}


/// The lowercase hex digit for a four-bit value.
pub open spec fn spec_hex_digit(d: u64) -> u8 {
    if d < 10 {
        (0x30 + d) as u8
    } else {
        (0x57 + d) as u8
    }
}

/// The sixteen hex digits of a 64-bit value, high nibble first.
pub open spec fn spec_hex_bytes(v: u64) -> Seq<u8> {
    Seq::new(16, |i: int| spec_hex_digit((v >> (((15 - i) * 4) as u64)) & 0xf))
}

/// Writing a concatenation is writing the parts in order.
pub proof fn lemma_write_bytes_append(
    b: Seq<Seq<ScreenChar>>,
    col: int,
    cc: ColorCode,
    s1: Seq<u8>,
    s2: Seq<u8>,
)
    ensures
        spec_write_bytes(b, col, cc, s1 + s2) == ({
            let p = spec_write_bytes(b, col, cc, s1);
            spec_write_bytes(p.0, p.1, cc, s2)
        }),
    decreases s2.len(),
{
    if s2.len() == 0 {
        assert(s1 + s2 == s1);
    } else {
        assert((s1 + s2).drop_last() == s1 + s2.drop_last());
        assert((s1 + s2).last() == s2.last());
        lemma_write_bytes_append(b, col, cc, s1, s2.drop_last());
    }
}

/// The screen writer: the current column on the bottom row, the colors
/// new characters get, and the screen cells themselves.
pub struct Writer {
    pub column_position: usize,
    pub color_code: ColorCode,
    pub buffer: Vec<Vec<ScreenChar>>,
}

impl Writer {
    /// The buffer is exactly 25 rows of 80 cells and the column never
    /// passes the row's end.
    pub open spec fn wf(self) -> bool {
        &&& self.buffer@.len() == 25
        &&& forall|i: int| 0 <= i < 25 ==> (#[trigger] self.buffer@[i]).len() == 80
        &&& self.column_position <= 80
    }

    /// The screen cells.
    pub open spec fn view_of(self) -> Seq<Seq<ScreenChar>> {
        Seq::new(25, |i: int| self.buffer@[i]@)
    }

    /// A blank screen in the given colors.
    pub fn new(color_code: ColorCode) -> (r: Writer)
        ensures
            r.wf(),
            r.column_position == 0,
            r.color_code == color_code,
            r.view_of() == Seq::new(25, |i: int| spec_blank_row(color_code)),
    {
        let mut buffer: Vec<Vec<ScreenChar>> = Vec::new();
        let mut i: usize = 0;
        while i < 25
            invariant
                i <= 25,
                buffer@.len() == i,
                forall|r: int| 0 <= r < i ==> (#[trigger] buffer@[r])@ == spec_blank_row(
                    color_code,
                ),
            decreases 25 - i,
        {
            let mut row: Vec<ScreenChar> = Vec::new();
            let mut j: usize = 0;
            while j < 80
                invariant
                    j <= 80,
                    row@.len() == j,
                    forall|c: int| 0 <= c < j ==> row@[c] == spec_blank(color_code),
                decreases 80 - j,
            {
                row.push(ScreenChar { ascii_char: 0x20, color_code });
                j = j + 1;
            }
            proof {
                assert(row@ =~= spec_blank_row(color_code));
            }
            buffer.push(row);
            i = i + 1;
        }
        let w = Writer { column_position: 0, color_code, buffer };
        proof {
            assert(w.view_of() =~= Seq::new(25, |i: int| spec_blank_row(color_code)));
        }
        w
    }

    /// Blank out one row.
    fn clear_row(&mut self, row: usize)
        requires
            old(self).wf(),
            row < 25,
        ensures
            final(self).wf(),
            final(self).column_position == old(self).column_position,
            final(self).color_code == old(self).color_code,
            final(self).view_of() == old(self).view_of().update(
                row as int,
                spec_blank_row(old(self).color_code),
            ),
    {
        let blank = ScreenChar { ascii_char: 0x20, color_code: self.color_code };
        let mut col: usize = 0;
        while col < 80
            invariant
                old(self).wf(),
                self.wf(),
                row < 25,
                col <= 80,
                blank == spec_blank(old(self).color_code),
                self.column_position == old(self).column_position,
                self.color_code == old(self).color_code,
                self.buffer@.len() == 25,
                forall|i: int| 0 <= i < 25 && i != row ==> self.buffer@[i] == old(self).buffer@[i],
                self.buffer@[row as int]@.len() == 80,
                forall|c: int|
                    0 <= c < col ==> (#[trigger] self.buffer@[row as int]@[c]) == spec_blank(
                        old(self).color_code,
                    ),
                forall|c: int|
                    col <= c < 80 ==> (#[trigger] self.buffer@[row as int]@[c]) == old(
                        self,
                    ).buffer@[row as int]@[c],
            decreases 80 - col,
        {
            self.buffer[row][col] = blank;
            col = col + 1;
        }
        proof {
            assert(self.buffer@[row as int]@ =~= spec_blank_row(old(self).color_code));
            assert(self.view_of() =~= old(self).view_of().update(
                row as int,
                spec_blank_row(old(self).color_code),
            ));
        }
    }

    /// Shift the screen up one row and return to the start of the bottom
    /// row.
    fn new_line(&mut self)
        requires
            old(self).wf(),
        ensures
            final(self).wf(),
            final(self).color_code == old(self).color_code,
            final(self).column_position == 0,
            final(self).view_of() == spec_new_line(old(self).view_of(), old(self).color_code),
    {
        let mut row: usize = 1;
        while row < 25
            invariant
                old(self).wf(),
                self.wf(),
                1 <= row <= 25,
                self.color_code == old(self).color_code,
                self.buffer@.len() == 25,
                forall|i: int|
                    0 <= i < row - 1 ==> (#[trigger] self.buffer@[i])@ == old(self).buffer@[i
                        + 1]@,
                forall|i: int|
                    row - 1 <= i < 25 ==> (#[trigger] self.buffer@[i])@ == old(self).buffer@[i]@,
            decreases 25 - row,
        {
            let mut col: usize = 0;
            while col < 80
                invariant
                    old(self).wf(),
                    self.wf(),
                    1 <= row < 25,
                    col <= 80,
                    self.color_code == old(self).color_code,
                    self.buffer@.len() == 25,
                    forall|i: int|
                        0 <= i < row - 1 ==> (#[trigger] self.buffer@[i])@ == old(self).buffer@[i
                            + 1]@,
                    forall|i: int|
                        row <= i < 25 ==> (#[trigger] self.buffer@[i])@ == old(self).buffer@[i]@,
                    self.buffer@[row as int - 1]@.len() == 80,
                    forall|c: int|
                        0 <= c < col ==> (#[trigger] self.buffer@[row as int - 1]@[c]) == old(
                            self,
                        ).buffer@[row as int]@[c],
                    forall|c: int|
                        col <= c < 80 ==> (#[trigger] self.buffer@[row as int - 1]@[c]) == old(
                            self,
                        ).buffer@[row as int - 1]@[c],
                decreases 80 - col,
            {
                let ch = self.buffer[row][col];
                self.buffer[row - 1][col] = ch;
                col = col + 1;
            }
            proof {
                assert(self.buffer@[row as int - 1]@ =~= old(self).buffer@[row as int]@);
            }
            row = row + 1;
        }
        self.clear_row(24);
        self.column_position = 0;
        proof {
            assert(final(self).view_of() =~= spec_new_line(
                old(self).view_of(),
                old(self).color_code,
            ));
        }
    }

    /// Write one raw byte to the screen.
    pub fn write_byte(&mut self, byte: u8)
        requires
            old(self).wf(),
        ensures
            final(self).wf(),
            final(self).color_code == old(self).color_code,
            (final(self).view_of(), final(self).column_position as int) == spec_write_byte(
                old(self).view_of(),
                old(self).column_position as int,
                old(self).color_code,
                byte,
            ),
    {
        if byte == 0x0a {
            self.new_line();
            return ;
        }
        if self.column_position >= 80 {
            self.new_line();
        }
        let col = self.column_position;
        let cell = ScreenChar { ascii_char: byte, color_code: self.color_code };
        self.buffer[24][col] = cell;
        self.column_position = col + 1;
        proof {
            let w = spec_write_byte(
                old(self).view_of(),
                old(self).column_position as int,
                old(self).color_code,
                byte,
            );
            assert(final(self).view_of() =~= w.0);
        }
    }

    /// Write a string to the screen, substituting the replacement glyph
    /// for bytes the code page cannot show.
    pub fn write_string(&mut self, s: &str)
        requires
            old(self).wf(),
        ensures
            final(self).wf(),
            final(self).color_code == old(self).color_code,
            (final(self).view_of(), final(self).column_position as int) == spec_write_bytes(
                old(self).view_of(),
                old(self).column_position as int,
                old(self).color_code,
                s.spec_bytes(),
            ),
    {
        let bytes = s.as_bytes();
        let mut i: usize = 0;
        while i < bytes.len()
            invariant
                old(self).wf(),
                self.wf(),
                i <= bytes@.len(),
                bytes@ == s.spec_bytes(),
                self.color_code == old(self).color_code,
                (self.view_of(), self.column_position as int) == spec_write_bytes(
                    old(self).view_of(),
                    old(self).column_position as int,
                    old(self).color_code,
                    bytes@.take(i as int),
                ),
            decreases bytes@.len() - i,
        {
            let byte = bytes[i];
            let shown = if (0x20 <= byte && byte <= 0x7e) || byte == 0x0a {
                byte
            } else {
                0xfe
            };
            self.write_byte(shown);
            proof {
                assert(bytes@.take(i as int + 1).drop_last() == bytes@.take(i as int));
                assert(bytes@.take(i as int + 1).last() == bytes@[i as int]);
            }
            i = i + 1;
        }
        proof {
            assert(bytes@.take(bytes@.len() as int) == bytes@);
        }
    }

    /// Write the sixteen lowercase hex digits of `value`, high nibble
    /// first.
    pub fn write_hex(&mut self, value: u64)
        requires
            old(self).wf(),
        ensures
            final(self).wf(),
            final(self).color_code == old(self).color_code,
            (final(self).view_of(), final(self).column_position as int) == spec_write_bytes(
                old(self).view_of(),
                old(self).column_position as int,
                old(self).color_code,
                spec_hex_bytes(value),
            ),
    {
        let mut i: usize = 0;
        while i < 16
            invariant
                old(self).wf(),
                self.wf(),
                i <= 16,
                self.color_code == old(self).color_code,
                (self.view_of(), self.column_position as int) == spec_write_bytes(
                    old(self).view_of(),
                    old(self).column_position as int,
                    old(self).color_code,
                    spec_hex_bytes(value).take(i as int),
                ),
            decreases 16 - i,
        {
            let shift: u64 = ((15 - i) * 4) as u64;
            let nibble: u64 = (value >> shift) & 0xf;
            proof {
                let v = value;
                let sh = shift;
                assert((v >> sh) & 0xf < 16) by (bit_vector);
            }
            let digit: u8 = if nibble < 10 {
                (0x30 + nibble) as u8
            } else {
                (0x57 + nibble) as u8
            };
            self.write_byte(digit);
            proof {
                let hex = spec_hex_bytes(value);
                assert(hex.take(i as int + 1).drop_last() == hex.take(i as int));
                assert(hex.take(i as int + 1).last() == hex[i as int]);
                assert(digit == spec_hex_digit(nibble));
                // Hex digits are printable, so the console shows them as
                // they are.
                assert(spec_printable(digit) == digit);
            }
            i = i + 1;
        }
        proof {
            assert(spec_hex_bytes(value).take(16) == spec_hex_bytes(value));
        }
    }
}

/// Write formatted text to the given writer: the worker behind console
/// printing.
pub fn print_helper(writer: &mut Writer, s: &str)
    requires
        old(writer).wf(),
    ensures
        final(writer).wf(),
        final(writer).color_code == old(writer).color_code,
        (final(writer).view_of(), final(writer).column_position as int) == spec_write_bytes(
            old(writer).view_of(),
            old(writer).column_position as int,
            old(writer).color_code,
            s.spec_bytes(),
        ),
{
    writer.write_string(s);
}

} // verus!

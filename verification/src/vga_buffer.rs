//! Text-mode console: a writer over a fixed-size screen of colored
//! characters.
//!
//! The writer appends bytes in the bottom row, left to right.  A newline
//! (or running past the right edge) scrolls every row up by one and
//! clears the bottom row; bytes outside the printable range are shown as
//! a placeholder character.  The screen here is owned storage; copying
//! its rows into the memory-mapped hardware buffer is the unverified
//! shell's work.

use vstd::prelude::*;
use vstd::string::StringSliceAdditionalSpecFns;

verus! {

/// Width of the screen in characters.
pub const BUFFER_WIDTH: usize = 80;

/// Height of the screen in rows.
pub const BUFFER_HEIGHT: usize = 25;

/// The character code shown in place of an unprintable byte.
pub const PLACEHOLDER_BYTE: u8 = 0xfe;

/// The standard color palette of text mode.
#[derive(Debug, Clone, Copy, PartialEq, Eq, Structural)]
pub enum Color {
    Black,
    Blue,
    Green,
    Cyan,
    Red,
    Magenta,
    Brown,
    LightGray,
    DarkGray,
    LightBlue,
    LightGreen,
    LightCyan,
    LightRed,
    Pink,
    Yellow,
    White,
}

impl Color {
    /// The palette number of the color, 0 to 15.
    pub open spec fn spec_number(self) -> u8 {
        match self {
            Color::Black => 0,
            Color::Blue => 1,
            Color::Green => 2,
            Color::Cyan => 3,
            Color::Red => 4,
            Color::Magenta => 5,
            Color::Brown => 6,
            Color::LightGray => 7,
            Color::DarkGray => 8,
            Color::LightBlue => 9,
            Color::LightGreen => 10,
            Color::LightCyan => 11,
            Color::LightRed => 12,
            Color::Pink => 13,
            Color::Yellow => 14,
            Color::White => 15,
        }
    }

    /// The palette number of the color, 0 to 15.
    pub fn number(self) -> (r: u8)
        ensures
            r == self.spec_number(),
            r <= 15,
    {
        match self {
            Color::Black => 0,
            Color::Blue => 1,
            Color::Green => 2,
            Color::Cyan => 3,
            Color::Red => 4,
            Color::Magenta => 5,
            Color::Brown => 6,
            Color::LightGray => 7,
            Color::DarkGray => 8,
            Color::LightBlue => 9,
            Color::LightGreen => 10,
            Color::LightCyan => 11,
            Color::LightRed => 12,
            Color::Pink => 13,
            Color::Yellow => 14,
            Color::White => 15,
        }
    }
}

/// A combination of a foreground and a background color: the background
/// in the high half of the byte, the foreground in the low half.
#[derive(Debug, Clone, Copy, PartialEq, Eq, Structural)]
pub struct ColorCode(pub u8);

impl ColorCode {
    /// Packs the two colors into one attribute byte.
    pub fn new(foreground: Color, background: Color) -> (r: ColorCode)
        ensures
            r.0 == background.spec_number() * 16 + foreground.spec_number(),
    {
        ColorCode(background.number() * 16 + foreground.number())
    }
}

/// A screen character: a byte of text and its colors.
#[derive(Debug, Clone, Copy, PartialEq, Eq, Structural)]
pub struct ScreenChar {
    pub ascii_character: u8,
    pub color_code: ColorCode,
}

/// A full screen of characters: `BUFFER_HEIGHT` rows of `BUFFER_WIDTH`
/// characters each, top row first.
pub open spec fn screen_wf(s: Seq<Seq<ScreenChar>>) -> bool {
    &&& s.len() == BUFFER_HEIGHT
    &&& forall|r: int| 0 <= r < BUFFER_HEIGHT ==> (#[trigger] s[r]).len() == BUFFER_WIDTH
}

/// A blank character in the given colors.
pub open spec fn blank_char(color_code: ColorCode) -> ScreenChar {
    ScreenChar { ascii_character: 32, color_code }
}

/// A row of blanks in the given colors.
pub open spec fn blank_row(color_code: ColorCode) -> Seq<ScreenChar> {
    Seq::new(BUFFER_WIDTH as nat, |c: int| blank_char(color_code))
}

/// The screen after scrolling: every row moves up by one and the bottom
/// row becomes blank.
pub open spec fn scrolled(s: Seq<Seq<ScreenChar>>, color_code: ColorCode) -> Seq<
    Seq<ScreenChar>,
> {
    Seq::new(
        BUFFER_HEIGHT as nat,
        |r: int|
            if r < BUFFER_HEIGHT - 1 {
                s[r + 1]
            } else {
                blank_row(color_code)
            },
    )
}

/// The screen after one character is written in the bottom row.
pub open spec fn written(s: Seq<Seq<ScreenChar>>, col: int, ch: ScreenChar) -> Seq<
    Seq<ScreenChar>,
> {
    s.update(BUFFER_HEIGHT - 1, s[BUFFER_HEIGHT - 1].update(col, ch))
}

/// The screen and column after one byte is written: a newline scrolls,
/// any other byte lands in the bottom row (after a scroll when the row is
/// full), unprintable bytes as the placeholder character.
pub open spec fn spec_write_byte(
    s: Seq<Seq<ScreenChar>>,
    col: int,
    color_code: ColorCode,
    byte: u8,
) -> (Seq<Seq<ScreenChar>>, int) {
    if byte == 10 {
        (scrolled(s, color_code), 0)
    } else {
        let shown: u8 = if 0x20 <= byte <= 0x7e {
            byte
        } else {
            PLACEHOLDER_BYTE
        };
        let base = if col >= BUFFER_WIDTH {
            scrolled(s, color_code)
        } else {
            s
        };
        let at = if col >= BUFFER_WIDTH {
            0
        } else {
            col
        };
        (written(base, at, ScreenChar { ascii_character: shown, color_code }), at + 1)
    }
}

/// The screen and column after a sequence of bytes is written in order.
pub open spec fn spec_write_bytes(
    s: Seq<Seq<ScreenChar>>,
    col: int,
    color_code: ColorCode,
    bytes: Seq<u8>,
) -> (Seq<Seq<ScreenChar>>, int)
    decreases bytes.len(),
{
    if bytes.len() == 0 {
        (s, col)
    } else {
        let head = spec_write_byte(s, col, color_code, bytes[0]);
        spec_write_bytes(head.0, head.1, color_code, bytes.drop_first())
    }
}

/// Writing a sequence of bytes and one more byte is writing the sequence,
/// and the byte after it.
pub proof fn lemma_write_bytes_push(
    s: Seq<Seq<ScreenChar>>,
    col: int,
    color_code: ColorCode,
    bytes: Seq<u8>,
    byte: u8,
)
    ensures
        spec_write_bytes(s, col, color_code, bytes.push(byte)) == ({
            let mid = spec_write_bytes(s, col, color_code, bytes);
            spec_write_byte(mid.0, mid.1, color_code, byte)
        }),
    decreases bytes.len(),
{
    if bytes.len() == 0 {
        let p = bytes.push(byte);
        assert(p[0] == byte);
        assert(p.drop_first() =~= Seq::<u8>::empty());
        let head = spec_write_byte(s, col, color_code, p[0]);
        assert(spec_write_bytes(s, col, color_code, p) == spec_write_bytes(
            head.0,
            head.1,
            color_code,
            p.drop_first(),
        ));
        assert(spec_write_bytes(head.0, head.1, color_code, p.drop_first()) == head);
        assert(spec_write_bytes(s, col, color_code, bytes) == (s, col));
    } else {
        let head = spec_write_byte(s, col, color_code, bytes[0]);
        assert(bytes.push(byte)[0] == bytes[0]);
        assert(bytes.push(byte).drop_first() =~= bytes.drop_first().push(byte));
        lemma_write_bytes_push(head.0, head.1, color_code, bytes.drop_first(), byte);
    }
}

/// A writer that accumulates ASCII bytes and strings on a screen.
pub struct Writer {
    pub column_position: usize,
    pub color_code: ColorCode,
    pub buffer: Vec<Vec<ScreenChar>>,
}

impl Writer {
    /// The screen the writer has produced.
    pub open spec fn screen(self) -> Seq<Seq<ScreenChar>> {
        self.buffer@.map_values(|row: Vec<ScreenChar>| row@)
    }

    /// Well-formedness: a full screen, and the cursor at most one past
    /// the right edge.
    pub open spec fn wf(self) -> bool {
        &&& screen_wf(self.screen())
        &&& self.column_position <= BUFFER_WIDTH
    }

    /// Creates a writer with the given colors over a cleared screen.
    pub fn new(color_code: ColorCode) -> (r: Writer)
        ensures
            r.wf(),
            r.column_position == 0,
            r.color_code == color_code,
            forall|row: int|
                0 <= row < BUFFER_HEIGHT ==> #[trigger] r.screen()[row] == blank_row(color_code),
    {
        let mut buffer: Vec<Vec<ScreenChar>> = Vec::new();
        let mut row: usize = 0;
        while row < BUFFER_HEIGHT
            invariant
                0 <= row <= BUFFER_HEIGHT,
                buffer@.len() == row,
                forall|r: int| 0 <= r < row ==> #[trigger] buffer@[r]@ == blank_row(color_code),
            decreases BUFFER_HEIGHT - row,
        {
            let mut line: Vec<ScreenChar> = Vec::new();
            let mut col: usize = 0;
            while col < BUFFER_WIDTH
                invariant
                    0 <= col <= BUFFER_WIDTH,
                    line@.len() == col,
                    forall|c: int| 0 <= c < col ==> #[trigger] line@[c] == blank_char(color_code),
                decreases BUFFER_WIDTH - col,
            {
                line.push(ScreenChar { ascii_character: 32, color_code });
                col = col + 1;
            }
            proof {
                assert(line@ =~= blank_row(color_code));
            }
            buffer.push(line);
            row = row + 1;
        }
        let writer = Writer { column_position: 0, color_code, buffer };
        proof {
            assert forall|row: int|
                0 <= row < BUFFER_HEIGHT implies #[trigger] writer.screen()[row] == blank_row(
                color_code,
            ) by {
                assert(writer.screen()[row] == writer.buffer@[row]@);
            }
        }
        writer
    }

    /// Writes one character into the bottom row at the given column.
    fn set_char(&mut self, col: usize, ch: ScreenChar)
        requires
            old(self).wf(),
            col < BUFFER_WIDTH,
        ensures
            final(self).wf(),
            final(self).screen() == written(old(self).screen(), col as int, ch),
            final(self).column_position == old(self).column_position,
            final(self).color_code == old(self).color_code,
    {
        proof {
            assert(self.screen()[BUFFER_HEIGHT - 1] == self.buffer@[BUFFER_HEIGHT - 1]@);
        }
        let row = &mut self.buffer[BUFFER_HEIGHT - 1];
        row[col] = ch;
        proof {
            let prior = old(self).screen();
            let cur = self.screen();
            assert(cur =~= written(prior, col as int, ch)) by {
                assert forall|r: int| 0 <= r < BUFFER_HEIGHT implies cur[r] == written(
                    prior,
                    col as int,
                    ch,
                )[r] by {
                    assert(cur[r] == self.buffer@[r]@);
                    assert(prior[r] == old(self).buffer@[r]@);
                }
            }
        }
    }

    /// Clears the given row to blanks in the writer's colors.
    fn clear_row(&mut self, row: usize)
        requires
            old(self).wf(),
            row < BUFFER_HEIGHT,
        ensures
            final(self).wf(),
            final(self).screen() == old(self).screen().update(
                row as int,
                blank_row(old(self).color_code),
            ),
            final(self).column_position == old(self).column_position,
            final(self).color_code == old(self).color_code,
    {
        let blank = ScreenChar { ascii_character: 32, color_code: self.color_code };
        let mut col: usize = 0;
        while col < BUFFER_WIDTH
            invariant
                old(self).wf(),
                self.wf(),
                0 <= col <= BUFFER_WIDTH,
                row < BUFFER_HEIGHT,
                blank == blank_char(old(self).color_code),
                self.column_position == old(self).column_position,
                self.color_code == old(self).color_code,
                forall|r: int|
                    0 <= r < BUFFER_HEIGHT && r != row ==> #[trigger] self.screen()[r] == old(
                        self,
                    ).screen()[r],
                forall|c: int|
                    0 <= c < col ==> #[trigger] self.screen()[row as int][c] == blank_char(
                        old(self).color_code,
                    ),
                forall|c: int|
                    col <= c < BUFFER_WIDTH ==> #[trigger] self.screen()[row as int][c] == old(
                        self,
                    ).screen()[row as int][c],
            decreases BUFFER_WIDTH - col,
        {
            let ghost pre_screen = self.screen();
            let ghost pre_buffer = self.buffer@;
            proof {
                assert(pre_screen[row as int] == pre_buffer[row as int]@);
            }
            let line = &mut self.buffer[row];
            line[col] = blank;
            proof {
                let cur = self.screen();
                assert(self.buffer@ == pre_buffer.update(row as int, self.buffer@[row as int]));
                assert(self.buffer@[row as int]@ == pre_buffer[row as int]@.update(
                    col as int,
                    blank,
                ));
                assert forall|r: int| 0 <= r < BUFFER_HEIGHT implies #[trigger] cur[r] == (if r
                    == row {
                    pre_screen[r].update(col as int, blank)
                } else {
                    pre_screen[r]
                }) by {
                    assert(cur[r] == self.buffer@[r]@);
                    assert(pre_screen[r] == pre_buffer[r]@);
                }
            }
            col = col + 1;
        }
        proof {
            assert(self.screen() =~~= old(self).screen().update(
                row as int,
                blank_row(old(self).color_code),
            ));
        }
    }

    /// Scrolls: every row moves up by one, the bottom row is cleared, and
    /// the cursor returns to the left edge.
    pub fn new_line(&mut self)
        requires
            old(self).wf(),
        ensures
            final(self).wf(),
            final(self).screen() == scrolled(old(self).screen(), old(self).color_code),
            final(self).column_position == 0,
            final(self).color_code == old(self).color_code,
    {
        let mut row: usize = 1;
        while row < BUFFER_HEIGHT
            invariant
                old(self).wf(),
                self.wf(),
                1 <= row <= BUFFER_HEIGHT,
                self.color_code == old(self).color_code,
                forall|r: int|
                    0 <= r < row - 1 ==> #[trigger] self.screen()[r] == old(self).screen()[r + 1],
                forall|r: int|
                    row - 1 <= r < BUFFER_HEIGHT ==> #[trigger] self.screen()[r] == old(
                        self,
                    ).screen()[r],
            decreases BUFFER_HEIGHT - row,
        {
            let mut col: usize = 0;
            while col < BUFFER_WIDTH
                invariant
                    old(self).wf(),
                    self.wf(),
                    1 <= row < BUFFER_HEIGHT,
                    0 <= col <= BUFFER_WIDTH,
                    self.color_code == old(self).color_code,
                    forall|r: int|
                        0 <= r < row - 1 ==> #[trigger] self.screen()[r] == old(self).screen()[r
                            + 1],
                    forall|r: int|
                        row <= r < BUFFER_HEIGHT ==> #[trigger] self.screen()[r] == old(
                            self,
                        ).screen()[r],
                    forall|c: int|
                        0 <= c < col ==> #[trigger] self.screen()[row - 1][c] == old(
                            self,
                        ).screen()[row as int][c],
                    forall|c: int|
                        col <= c < BUFFER_WIDTH ==> #[trigger] self.screen()[row - 1][c] == old(
                            self,
                        ).screen()[row - 1][c],
                decreases BUFFER_WIDTH - col,
            {
                let ghost pre_screen = self.screen();
                let ghost pre_buffer = self.buffer@;
                proof {
                    assert(pre_screen[row as int] == pre_buffer[row as int]@);
                    assert(pre_screen[row - 1] == pre_buffer[row - 1]@);
                }
                let ch: ScreenChar = self.buffer[row][col];
                let line = &mut self.buffer[row - 1];
                line[col] = ch;
                proof {
                    let cur = self.screen();
                    assert(ch == pre_screen[row as int][col as int]);
                    assert(self.buffer@ == pre_buffer.update(
                        row - 1,
                        self.buffer@[row - 1],
                    ));
                    assert(self.buffer@[row - 1]@ == pre_buffer[row - 1]@.update(col as int, ch));
                    assert forall|r: int| 0 <= r < BUFFER_HEIGHT implies #[trigger] cur[r] == (
                    if r == row - 1 {
                        pre_screen[r].update(col as int, ch)
                    } else {
                        pre_screen[r]
                    }) by {
                        assert(cur[r] == self.buffer@[r]@);
                        assert(pre_screen[r] == pre_buffer[r]@);
                    }
                }
                col = col + 1;
            }
            row = row + 1;
        }
        self.clear_row(BUFFER_HEIGHT - 1);
        self.column_position = 0;
        proof {
            assert(self.screen() =~~= scrolled(old(self).screen(), old(self).color_code));
        }
    }

    /// Writes one regular (non-newline) byte at the cursor, scrolling
    /// first when the bottom row is full.
    fn write_regular_byte(&mut self, byte: u8)
        requires
            old(self).wf(),
        ensures
            final(self).wf(),
            ({
                let base = if old(self).column_position >= BUFFER_WIDTH {
                    scrolled(old(self).screen(), old(self).color_code)
                } else {
                    old(self).screen()
                };
                let at: int = if old(self).column_position >= BUFFER_WIDTH {
                    0
                } else {
                    old(self).column_position as int
                };
                &&& final(self).screen() == written(
                    base,
                    at,
                    (ScreenChar { ascii_character: byte, color_code: old(self).color_code }),
                )
                &&& final(self).column_position == at + 1
            }),
            final(self).color_code == old(self).color_code,
    {
        if self.column_position >= BUFFER_WIDTH {
            self.new_line();
        }
        let col = self.column_position;
        let character = ScreenChar { ascii_character: byte, color_code: self.color_code };
        self.set_char(col, character);
        self.column_position = self.column_position + 1;
    }

    /// Writes one byte: a newline scrolls, printable bytes are shown as
    /// they are, anything else as the placeholder character.
    pub fn write_byte(&mut self, byte: u8)
        requires
            old(self).wf(),
        ensures
            final(self).wf(),
            ({
                let next = spec_write_byte(
                    old(self).screen(),
                    old(self).column_position as int,
                    old(self).color_code,
                    byte,
                );
                final(self).screen() == next.0 && final(self).column_position == next.1
            }),
            final(self).color_code == old(self).color_code,
    {
        if byte == 10 {
            self.new_line();
        } else if 0x20 <= byte && byte <= 0x7e {
            self.write_regular_byte(byte);
        } else {
            self.write_regular_byte(PLACEHOLDER_BYTE);
        }
    }

    /// Writes a string byte by byte.
    pub fn write_string(&mut self, s: &str)
        requires
            old(self).wf(),
        ensures
            final(self).wf(),
            ({
                let end = spec_write_bytes(
                    old(self).screen(),
                    old(self).column_position as int,
                    old(self).color_code,
                    s.spec_bytes(),
                );
                final(self).screen() == end.0 && final(self).column_position == end.1
            }),
            final(self).color_code == old(self).color_code,
    {
        let bytes: &[u8] = s.as_bytes();
        let n: usize = bytes.len();
        let mut i: usize = 0;
        proof {
            assert(s.spec_bytes().take(0) =~= Seq::<u8>::empty());
        }
        while i < n
            invariant
                old(self).wf(),
                self.wf(),
                0 <= i <= n,
                n == s.spec_bytes().len(),
                bytes@ == s.spec_bytes(),
                self.color_code == old(self).color_code,
                ({
                    let part = spec_write_bytes(
                        old(self).screen(),
                        old(self).column_position as int,
                        old(self).color_code,
                        s.spec_bytes().take(i as int),
                    );
                    self.screen() == part.0 && self.column_position == part.1
                }),
            decreases n - i,
        {
            let byte: u8 = bytes[i];
            proof {
                lemma_write_bytes_push(
                    old(self).screen(),
                    old(self).column_position as int,
                    old(self).color_code,
                    s.spec_bytes().take(i as int),
                    byte,
                );
                assert(s.spec_bytes().take(i as int).push(byte) =~= s.spec_bytes().take(
                    i as int + 1,
                ));
            }
            self.write_byte(byte);
            i = i + 1;
        }
        proof {
            assert(s.spec_bytes().take(n as int) =~= s.spec_bytes());
        }
    }
}

} // verus!

use vstd::prelude::*;
use crate::krnl::port::{Port, wait, wait_port};
use vstd::string::StringSliceAdditionalSpecFns;

verus! {

//
//  ------------------> y (80)
//  | > _             |
//  |     console     |
//  |                 |
//  x-----------------x
// (25)
//
// The screen is held row by row: the cell at row x, column y is at index
// x * MAX_COLUMN + y.
pub const MAX_ROW: usize = 25;

pub const MAX_COLUMN: usize = 80;

pub const SIZE: usize = 2000;

/// The largest row a cursor can be placed at by the hardware cursor register.
pub const MAX_CURSOR_ROW: usize = 819;

pub const SPACE: u8 = 32;

#[derive(Clone, Copy, Debug, PartialEq, Eq, Structural)]
pub enum Color {
    Black,
    Blue,
    Green,
    Cyan,
    Red,
    Magenta,
    Brown,
    LightGrey,
    DarkGrey,
    LightBlue,
    LightGreen,
    LightCyan,
    LightRed,
    Pink,
    Yellow,
    White,
}

impl Color {
    pub const DEFAULT_FORE: Color = Color::LightGrey;

    pub const DEFAULT_BACK: Color = Color::Black;

    /// The VGA code of the color.
    pub open spec fn code(self) -> u8 {
        match self {
            Color::Black => 0,
            Color::Blue => 1,
            Color::Green => 2,
            Color::Cyan => 3,
            Color::Red => 4,
            Color::Magenta => 5,
            Color::Brown => 6,
            Color::LightGrey => 7,
            Color::DarkGrey => 8,
            Color::LightBlue => 9,
            Color::LightGreen => 10,
            Color::LightCyan => 11,
            Color::LightRed => 12,
            Color::Pink => 13,
            Color::Yellow => 14,
            Color::White => 15,
        }
    }

    pub fn value(self) -> (v: u8)
        ensures
            v == self.code(),
            v < 16,
    {
        match self {
            Color::Black => 0,
            Color::Blue => 1,
            Color::Green => 2,
            Color::Cyan => 3,
            Color::Red => 4,
            Color::Magenta => 5,
            Color::Brown => 6,
            Color::LightGrey => 7,
            Color::DarkGrey => 8,
            Color::LightBlue => 9,
            Color::LightGreen => 10,
            Color::LightCyan => 11,
            Color::LightRed => 12,
            Color::Pink => 13,
            Color::Yellow => 14,
            Color::White => 15,
        }
    }
}

/// An attribute is the composition of two colors: the background in the
/// high nibble and the foreground in the low nibble.
#[derive(Clone, Copy, Debug, PartialEq, Eq, Structural)]
pub struct Attribute(pub u8);

pub open spec fn attribute_of(fore: Color, back: Color) -> Attribute {
    Attribute((back.code() * 16 + fore.code()) as u8)
}

impl Attribute {
    pub fn new(fore: Color, back: Color) -> (a: Attribute)
        ensures
            a == attribute_of(fore, back),
    {
        let b = back.value();
        let f = fore.value();
        let v = (b << 4u8) | f;
        assert(v == b * 16 + f) by (bit_vector)
            requires
                v == (b << 4u8) | f,
                b < 16,
                f < 16,
        ;
        Attribute(v)
    }
}

impl Default for Attribute {
    fn default() -> (a: Attribute)
        ensures
            a == attribute_of(Color::LightGrey, Color::Black),
    {
        Attribute::new(Color::DEFAULT_FORE, Color::DEFAULT_BACK)
    }
}

#[derive(Clone, Copy, Debug, PartialEq, Eq, Structural)]
pub struct ScreenChar {
    pub ch: u8,
    pub attrib: Attribute,
}

impl ScreenChar {
    pub fn new(ch: u8, attrib: Attribute) -> (c: ScreenChar)
        ensures
            c == (ScreenChar { ch, attrib }),
    {
        ScreenChar { ch, attrib }
    }
}

impl Default for ScreenChar {
    fn default() -> (c: ScreenChar)
        ensures
            c == (ScreenChar { ch: 0, attrib: attribute_of(Color::LightGrey, Color::Black) }),
    {
        ScreenChar { ch: 0, attrib: Attribute::default() }
    }
}

/// A whole screen, row by row; it holds `SIZE` cells.
pub type ConsoleBuf = Vec<ScreenChar>;

/// A blank cell drawn with `attrib`.
pub open spec fn blank(attrib: Attribute) -> ScreenChar {
    ScreenChar { ch: SPACE, attrib }
}

/// The port writes that move the hardware cursor to `offset`, the index of
/// its cell: the high byte to register 14, then the low byte to register 15.
pub open spec fn go_writes(vport: Port, offset: int) -> Seq<(Port, u8)> {
    seq![
        (vport, 14u8),
        (Port(vport.0 ^ 1), ((offset / 256) % 256) as u8),
        (vport, 15u8),
        (Port(vport.0 ^ 1), (offset % 256) as u8),
    ]
}

/// The state of the console, as a mathematical value.
pub struct ConsoleView {
    pub screen: Seq<ScreenChar>,
    pub row: int,
    pub col: int,
    pub show: bool,
    pub attrib: Attribute,
    pub vport: Port,
}

/// The port writes that show the cursor where it stands, if it is shown.
pub open spec fn push_writes(v: ConsoleView) -> Seq<(Port, u8)> {
    if v.show {
        go_writes(v.vport, v.row * MAX_COLUMN + v.col)
    } else {
        seq![]
    }
}

/// The screen moved up by one row, with a blank last row.
pub open spec fn scrolled(screen: Seq<ScreenChar>, attrib: Attribute) -> Seq<ScreenChar> {
    Seq::new(
        SIZE as nat,
        |i: int|
            if i < SIZE - MAX_COLUMN {
                screen[i + MAX_COLUMN]
            } else {
                blank(attrib)
            },
    )
}

/// The control characters that move the cursor without drawing.
pub open spec fn is_control(ch: u8) -> bool {
    ch == 8 || ch == 9 || ch == 10 || ch == 13
}

/// The console after `ch` is written to it.
pub open spec fn putch_spec(v: ConsoleView, ch: u8) -> ConsoleView {
    // the character itself
    let (screen1, row1, col1) = if ch == 8 {
        (v.screen, v.row, if v.col != 0 { v.col - 1 } else { v.col })
    } else if ch == 9 {
        (v.screen, v.row, (v.col + 4) / 4 * 4)
    } else if ch == 13 {
        (v.screen, v.row, 0)
    } else if ch == 10 {
        (v.screen, v.row + 1, 0)
    } else {
        (v.screen.update(v.row * MAX_COLUMN + v.col, ScreenChar { ch, attrib: v.attrib }), v.row, v.col
            + 1)
    };
    // wrap at the end of a line
    let (row2, col2) = if col1 >= MAX_COLUMN {
        (row1 + 1, 0)
    } else {
        (row1, col1)
    };
    // scroll at the end of the screen
    let (screen3, row3) = if row2 >= MAX_ROW {
        (scrolled(screen1, v.attrib), row2 - 1)
    } else {
        (screen1, row2)
    };
    ConsoleView { screen: screen3, row: row3, col: col2, ..v }
}

/// The console after each byte of `bs` is written to it in turn.
pub open spec fn puts_spec(v: ConsoleView, bs: Seq<u8>) -> ConsoleView
    decreases bs.len(),
{
    if bs.len() == 0 {
        v
    } else {
        putch_spec(puts_spec(v, bs.drop_last()), bs.last())
    }
}

/// The port writes made while each byte of `bs` is written in turn.
pub open spec fn puts_writes(v: ConsoleView, bs: Seq<u8>) -> Seq<(Port, u8)>
    decreases bs.len(),
{
    if bs.len() == 0 {
        seq![]
    } else {
        puts_writes(v, bs.drop_last()) + push_writes(puts_spec(v, bs))
    }
}

/// The console state in which every well-formed console stays.
pub open spec fn view_wf(v: ConsoleView) -> bool {
    &&& v.screen.len() == SIZE
    &&& 0 <= v.row <= MAX_CURSOR_ROW
    &&& 0 <= v.col < MAX_COLUMN
}

struct Cursor {
    vport: Port,
    x: usize,  // row
    y: usize,  // column
    show: bool,
}

impl Cursor {
    /// The writes that move the hardware cursor to row `x`, column `y`.
    fn go(vport: Port, x: usize, y: usize) -> (w: Vec<(Port, u8)>)
        requires
            x <= MAX_CURSOR_ROW,
            y < MAX_COLUMN,
        ensures
            w@ == go_writes(vport, x * MAX_COLUMN + y),
    {
        let offset: usize = x * MAX_COLUMN + y;
        let vport2: Port = vport.silbing();
        let mut w: Vec<(Port, u8)> = Vec::new();
        w.push((vport, 14));
        let high = (offset >> 8usize) as u8;
        let low = offset as u8;
        assert(high == ((offset / 256) % 256) as u8 && low == (offset % 256) as u8) by (bit_vector)
            requires
                high == (offset >> 8usize) as u8,
                low == offset as u8,
        ;
        w.push((vport2, high));
        w.push((vport, 15));
        w.push((vport2, low));
        w
    }

    /// The cursor at the cell index read from the hardware registers.
    fn new(vport: Port, high: u8, low: u8) -> (c: Cursor)
        ensures
            c.vport == vport,
            c.x == (high * 256 + low) / (MAX_COLUMN as int),
            c.y == (high * 256 + low) % (MAX_COLUMN as int),
            c.x <= MAX_CURSOR_ROW,
            c.show,
    {
        let offset: usize = (high as usize) * 256 + (low as usize);
        let x: usize = offset / MAX_COLUMN;
        let y: usize = offset % MAX_COLUMN;
        Cursor { vport: vport, x: x, y: y, show: true }
    }

    fn push(&self) -> (w: Vec<(Port, u8)>)
        requires
            self.x <= MAX_CURSOR_ROW,
            self.y < MAX_COLUMN,
        ensures
            w@ == (if self.show {
                go_writes(self.vport, self.x * MAX_COLUMN + self.y)
            } else {
                seq![]
            }),
    {
        if self.show {
            Cursor::go(self.vport, self.x, self.y)
        } else {
            Vec::new()
        }
    }

    fn set_hidden(&mut self) -> (w: Vec<(Port, u8)>)
        ensures
            *final(self) == (Cursor { show: false, ..*old(self) }),
            w@ == go_writes(old(self).vport, MAX_ROW * MAX_COLUMN),
    {
        self.show = false;
        Cursor::go(self.vport, MAX_ROW, 0)
    }
}

/// The text-mode console: the screen contents, the cursor and the current
/// attribute. The caller copies the screen to video memory and performs the
/// port writes that the operations return.
pub struct Console {
    buf: Vec<ScreenChar>,
    cursor: Cursor,
    attrib: Attribute,
}

impl View for Console {
    type V = ConsoleView;

    closed spec fn view(&self) -> ConsoleView {
        ConsoleView {
            screen: self.buf@,
            row: self.cursor.x as int,
            col: self.cursor.y as int,
            show: self.cursor.show,
            attrib: self.attrib,
            vport: self.cursor.vport,
        }
    }
}

impl Console {
    /// What every operation keeps: the screen has `SIZE` cells and the
    /// cursor stands in a column of the screen.
    pub open spec fn wf(&self) -> bool {
        view_wf(self@)
    }

    /// A console over `screen`, with the cursor at the cell index whose high
    /// and low bytes were read from the cursor registers of `vport`.
    pub fn new(vport: Port, cursor_high: u8, cursor_low: u8, screen: ConsoleBuf) -> (c: Console)
        requires
            screen@.len() == SIZE,
        ensures
            c.wf(),
            c@.screen == screen@,
            c@.row == (cursor_high * 256 + cursor_low) / (MAX_COLUMN as int),
            c@.col == (cursor_high * 256 + cursor_low) % (MAX_COLUMN as int),
            c@.show,
            c@.vport == vport,
            c@.attrib == attribute_of(Color::LightGrey, Color::Black),
    {
        Console {
            buf: screen,
            cursor: Cursor::new(vport, cursor_high, cursor_low),
            attrib: Attribute::default(),
        }
    }

    /// The screen contents, row by row.
    pub fn screen(&self) -> (s: &[ScreenChar])
        ensures
            s@ == self@.screen,
    {
        self.buf.as_slice()
    }

    /// The cursor's row and column.
    pub fn cursor(&self) -> (p: (usize, usize))
        ensures
            p.0 == self@.row,
            p.1 == self@.col,
    {
        (self.cursor.x, self.cursor.y)
    }

    /// The attribute that new characters are drawn with.
    pub fn attrib(&self) -> (a: Attribute)
        ensures
            a == self@.attrib,
    {
        self.attrib
    }

    fn scroll(&mut self)
        requires
            old(self).wf(),
        ensures
            final(self).wf(),
            final(self)@ == (ConsoleView { screen: scrolled(old(self)@.screen, old(self)@.attrib), ..old(self)@ }),
    {
        let space = ScreenChar { ch: SPACE, attrib: self.attrib };
        let ghost old_buf = self.buf@;
        let mut i: usize = 0;
        while i < SIZE - MAX_COLUMN
            invariant
                old_buf == old(self).buf@,
                old_buf.len() == SIZE,
                i <= SIZE - MAX_COLUMN,
                self.buf@.len() == SIZE,
                self.cursor == old(self).cursor,
                self.attrib == old(self).attrib,
                forall|j: int| 0 <= j < i ==> self.buf@[j] == old_buf[j + MAX_COLUMN],
                forall|j: int| i <= j < SIZE ==> self.buf@[j] == old_buf[j],
            decreases SIZE - MAX_COLUMN - i,
        {
            let c = self.buf[i + MAX_COLUMN];
            self.buf.set(i, c);
            i += 1;
        }
        while i < SIZE
            invariant
                old_buf == old(self).buf@,
                old_buf.len() == SIZE,
                space == blank(old(self).attrib),
                SIZE - MAX_COLUMN <= i <= SIZE,
                self.buf@.len() == SIZE,
                self.cursor == old(self).cursor,
                self.attrib == old(self).attrib,
                forall|j: int| 0 <= j < SIZE - MAX_COLUMN ==> self.buf@[j] == old_buf[j + MAX_COLUMN],
                forall|j: int| SIZE - MAX_COLUMN <= j < i ==> self.buf@[j] == space,
            decreases SIZE - i,
        {
            self.buf.set(i, space);
            i += 1;
        }
        assert(self.buf@ =~= scrolled(old_buf, self.attrib));
    }

    pub fn hide_cursor(&mut self) -> (w: Vec<(Port, u8)>)
        requires
            old(self).wf(),
        ensures
            final(self).wf(),
            final(self)@ == (ConsoleView { show: false, ..old(self)@ }),
            w@ == go_writes(old(self)@.vport, MAX_ROW * MAX_COLUMN),
    {
        self.cursor.set_hidden()
    }

    /// Sets the attribute for new characters; with `reset`, also redraws
    /// every character on the screen with it.
    pub fn setcolor(&mut self, fore: Color, back: Color, reset: bool)
        requires
            old(self).wf(),
        ensures
            final(self).wf(),
            final(self)@ == (ConsoleView {
                screen: if reset {
                    Seq::new(
                        SIZE as nat,
                        |i: int|
                            ScreenChar { ch: old(self)@.screen[i].ch, attrib: attribute_of(fore, back) },
                    )
                } else {
                    old(self)@.screen
                },
                attrib: attribute_of(fore, back),
                ..old(self)@
            }),
    {
        let attrib: Attribute = Attribute::new(fore, back);
        let ghost old_buf = self.buf@;
        if reset {
            let mut i: usize = 0;
            while i < SIZE
                invariant
                    i <= SIZE,
                    self.buf@.len() == SIZE,
                self.cursor == old(self).cursor,
                self.attrib == old(self).attrib,
                    old_buf.len() == SIZE,
                    forall|j: int| 0 <= j < i ==> self.buf@[j] == (ScreenChar { ch: old_buf[j].ch, attrib }),
                    forall|j: int| i <= j < SIZE ==> self.buf@[j] == old_buf[j],
                decreases SIZE - i,
            {
                let ch = self.buf[i].ch;
                self.buf.set(i, ScreenChar { ch, attrib });
                i += 1;
            }
            assert(self.buf@ =~= Seq::new(
                SIZE as nat,
                |i: int| ScreenChar { ch: old_buf[i].ch, attrib: attribute_of(fore, back) },
            ));
        }
        self.attrib = attrib
    }

    /// Blanks the screen and moves the cursor to the top left corner.
    pub fn clear(&mut self) -> (w: Vec<(Port, u8)>)
        requires
            old(self).wf(),
        ensures
            final(self).wf(),
            final(self)@ == (ConsoleView {
                screen: Seq::new(SIZE as nat, |i: int| blank(old(self)@.attrib)),
                row: 0,
                col: 0,
                ..old(self)@
            }),
            w@ == push_writes(final(self)@).push((wait_port(), 0u8)),
    {
        let space = ScreenChar { ch: SPACE, attrib: self.attrib };
        let mut i: usize = 0;
        while i < SIZE
            invariant
                i <= SIZE,
                self.buf@.len() == SIZE,
                self.cursor == old(self).cursor,
                self.attrib == old(self).attrib,
                space == blank(old(self).attrib),
                forall|j: int| 0 <= j < i ==> self.buf@[j] == space,
            decreases SIZE - i,
        {
            self.buf.set(i, space);
            i += 1;
        }
        assert(self.buf@ =~= Seq::new(SIZE as nat, |i: int| blank(self.attrib)));
        self.cursor.x = 0;
        self.cursor.y = 0;
        let mut w = self.cursor.push();
        w.push(wait());
        w
    }

    /// Copies a whole screen to the console and moves the cursor to the top
    /// left corner.
    pub fn bkcpy(&mut self, buf: &ConsoleBuf) -> (w: Vec<(Port, u8)>)
        requires
            old(self).wf(),
            buf@.len() == SIZE,
        ensures
            final(self).wf(),
            final(self)@ == (ConsoleView { screen: buf@, row: 0, col: 0, ..old(self)@ }),
            w@ == push_writes(final(self)@).push((wait_port(), 0u8)),
    {
        let mut i: usize = 0;
        while i < SIZE
            invariant
                i <= SIZE,
                buf@.len() == SIZE,
                self.buf@.len() == SIZE,
                self.cursor == old(self).cursor,
                self.attrib == old(self).attrib,
                forall|j: int| 0 <= j < i ==> self.buf@[j] == buf@[j],
            decreases SIZE - i,
        {
            self.buf.set(i, buf[i]);
            i += 1;
        }
        assert(self.buf@ =~= buf@);
        self.cursor.x = 0;
        self.cursor.y = 0;
        let mut w = self.cursor.push();
        w.push(wait());
        w
    }

    /// Writes one ASCII character: backspace, tab, carriage return and line
    /// feed move the cursor, any other character is drawn at the cursor.
    pub fn putch(&mut self, ch: u8) -> (w: Vec<(Port, u8)>)
        requires
            old(self).wf(),
            ch < 128,
            is_control(ch) || old(self)@.row < MAX_ROW,
        ensures
            final(self).wf(),
            final(self)@ == putch_spec(old(self)@, ch),
            w@ == push_writes(final(self)@),
    {
        let c = match ascii_byte(ch) {
            Some(c) => c,
            None => ch,
        };
        let x = self.cursor.x;
        let y = self.cursor.y;
        let mut row: usize = x;
        let mut col: usize = y;
        if c == 8 {
            if col != 0 {
                col = col - 1;
            }
        } else if c == 9 {
            let sum: usize = col + 4;
            let next = sum & !3usize;
            assert(next == sum / 4 * 4) by (bit_vector)
                requires
                    next == sum & !3usize,
            ;
            col = next;
        } else if c == 13 {
            col = 0;
        } else if c == 10 {
            col = 0;
            row = row + 1;
        } else {
            let attrib = self.attrib;
            self.buf.set(x * MAX_COLUMN + y, ScreenChar { ch, attrib });
            col = col + 1;
        }
        if col >= MAX_COLUMN {
            col = 0;
            row = row + 1;
        }
        if row >= MAX_ROW {
            self.scroll();
            row = row - 1;
        }
        self.cursor.x = row;
        self.cursor.y = col;
        self.cursor.push()
    }

    /// Writes each byte of the ASCII string `s` in turn.
    pub fn write_str(&mut self, s: &str) -> (w: Vec<(Port, u8)>)
        requires
            old(self).wf(),
            forall|i: int| 0 <= i < s.spec_bytes().len() ==> #[trigger] s.spec_bytes()[i] < 128,
            forall|i: int|
                0 <= i < s.spec_bytes().len() ==> is_control(#[trigger] s.spec_bytes()[i])
                    || puts_spec(old(self)@, s.spec_bytes().take(i)).row < MAX_ROW,
        ensures
            final(self).wf(),
            final(self)@ == puts_spec(old(self)@, s.spec_bytes()),
            w@ == puts_writes(old(self)@, s.spec_bytes()),
    {
        let bytes = s.as_bytes();
        let ghost v0 = self@;
        let mut w: Vec<(Port, u8)> = Vec::new();
        let mut i: usize = 0;
        assert(bytes@.take(0) =~= Seq::<u8>::empty());
        while i < bytes.len()
            invariant
                bytes@ == s.spec_bytes(),
                i <= bytes@.len(),
                v0 == old(self)@,
                self.wf(),
                self@ == puts_spec(v0, bytes@.take(i as int)),
                w@ == puts_writes(v0, bytes@.take(i as int)),
                forall|k: int| 0 <= k < bytes@.len() ==> #[trigger] bytes@[k] < 128,
                forall|k: int|
                    0 <= k < bytes@.len() ==> is_control(#[trigger] bytes@[k]) || puts_spec(
                        v0,
                        bytes@.take(k),
                    ).row < MAX_ROW,
            decreases bytes@.len() - i,
        {
            let ch = bytes[i];
            assert(bytes@.take(i + 1).drop_last() =~= bytes@.take(i as int));
            let mut more = self.putch(ch);
            w.append(&mut more);
            i += 1;
        }
        assert(bytes@.take(i as int) =~= bytes@);
        w
    }
}

/// `ascii::AsciiChar::from_ascii` on a byte, turned back into its byte: the
/// crate accepts exactly the bytes below 128 and keeps their value.
#[verifier::external_body]
fn ascii_byte(ch: u8) -> (r: Option<u8>)
    ensures
        r == (if ch < 128 {
            Some(ch)
        } else {
            None
        }),
{
    match ascii::AsciiChar::from_ascii(ch) {
        Ok(ascii_char) => Some(ascii_char.as_byte()),
        Err(_) => None,
    }
}

/// Redraws the screen in the default colors and blanks it.
pub fn initialize(console: &mut Console) -> (w: Vec<(Port, u8)>)
    requires
        old(console).wf(),
    ensures
        final(console).wf(),
        final(console)@ == (ConsoleView {
            screen: Seq::new(SIZE as nat, |i: int| blank(attribute_of(Color::LightGrey, Color::Black))),
            row: 0,
            col: 0,
            attrib: attribute_of(Color::LightGrey, Color::Black),
            ..old(console)@
        }),
        w@ == push_writes(final(console)@).push((wait_port(), 0u8)),
{
    console.setcolor(Color::DEFAULT_FORE, Color::DEFAULT_BACK, true);
    console.clear()
}

// ---------------------------------------------------------------------------
// Laws of the console.
// ---------------------------------------------------------------------------

/// An attribute keeps both of its colors: the foreground in its low
/// nibble, the background in its high nibble.
pub proof fn lemma_attribute_colors(fore: Color, back: Color)
    ensures
        attribute_of(fore, back).0 % 16 == fore.code(),
        attribute_of(fore, back).0 / 16 == back.code(),
{
}

/// Writing a character keeps the console well formed.
pub proof fn lemma_putch_keeps_wf(v: ConsoleView, ch: u8)
    requires
        view_wf(v),
        is_control(ch) || v.row < MAX_ROW,
    ensures
        view_wf(putch_spec(v, ch)),
{
}

/// A cursor on the screen stays on the screen whatever is written.
pub proof fn lemma_putch_cursor_on_screen(v: ConsoleView, ch: u8)
    requires
        view_wf(v),
        v.row < MAX_ROW,
    ensures
        putch_spec(v, ch).row < MAX_ROW,
        putch_spec(v, ch).col < MAX_COLUMN,
{
}

/// A printable character is drawn at the cursor in the current attribute,
/// and the cursor moves one column right (within the line).
pub proof fn lemma_putch_draws(v: ConsoleView, ch: u8)
    requires
        view_wf(v),
        !is_control(ch),
        v.row < MAX_ROW,
        v.col + 1 < MAX_COLUMN,
    ensures
        putch_spec(v, ch).screen[v.row * MAX_COLUMN + v.col] == (ScreenChar { ch, attrib: v.attrib }),
        putch_spec(v, ch).row == v.row,
        putch_spec(v, ch).col == v.col + 1,
        forall|i: int|
            0 <= i < SIZE && i != v.row * MAX_COLUMN + v.col ==> #[trigger] putch_spec(v, ch).screen[i]
                == v.screen[i],
{
}

/// A line feed on the last row scrolls the screen up by one row: every row
/// but the last holds the row that was below it, and every cell of the last
/// row is a space in the console's current attribute. The cursor goes to the
/// start of that last row.
pub proof fn lemma_newline_scrolls(v: ConsoleView)
    requires
        view_wf(v),
        v.row == MAX_ROW - 1,
    ensures
        putch_spec(v, 10).screen == scrolled(v.screen, v.attrib),
        putch_spec(v, 10).row == MAX_ROW - 1,
        putch_spec(v, 10).col == 0,
        putch_spec(v, 10).screen.len() == 2000,
        forall|i: int| 0 <= i < 1920 ==> #[trigger] putch_spec(v, 10).screen[i] == v.screen[i + 80],
        forall|i: int|
            1920 <= i < 2000 ==> #[trigger] putch_spec(v, 10).screen[i] == (ScreenChar {
                ch: 32,
                attrib: v.attrib,
            }),
{
}

} // verus!

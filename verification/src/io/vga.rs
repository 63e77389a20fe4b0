//! VGA text terminal.
//!
//! The terminal is a flat buffer of `80 x 25` character cells, each cell a
//! 16-bit entry of character and colour, walked by a single cursor.
//! Writing the cells to the memory-mapped frame buffer at `0xb8000` is
//! left to the hardware-facing code; here lives the cell encoding and the
//! cursor discipline, with the one difference that the cursor wraps to
//! the top of the screen instead of running past its end.

use vstd::prelude::*;

verus! {

/// Number of character rows on the screen.
pub const VGA_HEIGHT: usize = 25;

/// Number of character columns on the screen.
pub const VGA_WIDTH: usize = 80;

/// The colors available in the VGA palette.
#[derive(Clone, Copy, Debug, PartialEq, Eq, Structural)]
pub enum VgaColor {
    Black,
    Blue,
    Green,
    Cyan,
    Red,
    Magenta,
    Brown,
    LightGray,
    DarkGray,
    LightBlue,
    LightGreen,
    LightCyan,
    LightRed,
    Pink,
    Yellow,
    White,
}

impl VgaColor {
    /// The palette index of the colour.
    pub open spec fn spec_code(self) -> u8 {
        match self {
            VgaColor::Black => 0,
            VgaColor::Blue => 1,
            VgaColor::Green => 2,
            VgaColor::Cyan => 3,
            VgaColor::Red => 4,
            VgaColor::Magenta => 5,
            VgaColor::Brown => 6,
            VgaColor::LightGray => 7,
            VgaColor::DarkGray => 8,
            VgaColor::LightBlue => 9,
            VgaColor::LightGreen => 10,
            VgaColor::LightCyan => 11,
            VgaColor::LightRed => 12,
            VgaColor::Pink => 13,
            VgaColor::Yellow => 14,
            VgaColor::White => 15,
        }
    }

    /// The palette index of the colour.
    pub fn code(self) -> (r: u8)
        ensures
            r == self.spec_code(),
            r < 16,
    {
        match self {
            VgaColor::Black => 0,
            VgaColor::Blue => 1,
            VgaColor::Green => 2,
            VgaColor::Cyan => 3,
            VgaColor::Red => 4,
            VgaColor::Magenta => 5,
            VgaColor::Brown => 6,
            VgaColor::LightGray => 7,
            VgaColor::DarkGray => 8,
            VgaColor::LightBlue => 9,
            VgaColor::LightGreen => 10,
            VgaColor::LightCyan => 11,
            VgaColor::LightRed => 12,
            VgaColor::Pink => 13,
            VgaColor::Yellow => 14,
            VgaColor::White => 15,
        }
    }
}

/// The colour byte combining `foreground` and `background`: the background
/// in the high four bits.
pub fn vga_entry_color(foreground: VgaColor, background: VgaColor) -> (r: u8)
    ensures
        r == foreground.spec_code() + background.spec_code() * 16,
{
    let f = foreground.code();
    let b = background.code();
    proof {
        assert(f | (b << 4) == f + b * 16) by (bit_vector)
            requires
                f < 16,
                b < 16,
        ;
    }
    f | b << 4
}

/// The 16-bit cell entry combining the character `uc` and the colour
/// byte: the colour in the high eight bits.
pub open spec fn spec_vga_entry(uc: u8, color: u8) -> u16 {
    (uc + color * 256) as u16
}

/// The 16-bit cell entry combining the character `uc` and the colour
/// byte.
pub fn vga_entry(uc: u8, color: u8) -> (r: u16)
    ensures
        r == spec_vga_entry(uc, color),
{
    let u = uc as u16;
    let c = color as u16;
    proof {
        assert(u | (c << 8) == u + c * 256) by (bit_vector)
            requires
                u < 256,
                c < 256,
        ;
    }
    u | c << 8
}

/// Ghost state of the terminal: the cursor cell, the current colour, and
/// the screen's cells.
pub ghost struct TermView {
    pub cursor: int,
    pub color: u8,
    pub buffer: Seq<u16>,
}

/// The state of the terminal after writing the single byte `c`: a newline
/// moves the cursor to the start of the next line, any other byte lands
/// in the cursor's cell and advances it; either way the cursor wraps at
/// the end of the screen.
pub open spec fn putchar_spec(v: TermView, c: u8) -> TermView {
    let len = (VGA_WIDTH * VGA_HEIGHT) as int;
    if c == 10 {
        TermView {
            cursor: (v.cursor + VGA_WIDTH - (v.cursor % (VGA_WIDTH as int))) % len,
            color: v.color,
            buffer: v.buffer,
        }
    } else {
        TermView {
            cursor: (v.cursor + 1) % len,
            color: v.color,
            buffer: v.buffer.update(v.cursor, spec_vga_entry(c, v.color)),
        }
    }
}

/// The state of the terminal after writing every byte of `data` in turn.
pub open spec fn write_spec(v: TermView, data: Seq<u8>) -> TermView
    decreases data.len(),
{
    if data.len() == 0 {
        v
    } else {
        write_spec(putchar_spec(v, data[0]), data.drop_first())
    }
}

/// Writing one more byte continues from where the previous ones left off.
proof fn lemma_write_spec_snoc(v: TermView, data: Seq<u8>, c: u8)
    ensures
        write_spec(v, data.push(c)) == putchar_spec(write_spec(v, data), c),
    decreases data.len(),
{
    if data.len() == 0 {
        assert(data.push(c)[0] == c);
        assert(data.push(c).drop_first() =~= Seq::<u8>::empty());
        assert(write_spec(v, data.push(c)) == write_spec(
            putchar_spec(v, c),
            Seq::<u8>::empty(),
        ));
        assert(write_spec(putchar_spec(v, c), Seq::<u8>::empty()) == putchar_spec(v, c));
        assert(write_spec(v, data) == v);
    } else {
        assert(data.push(c)[0] == data[0]);
        assert(data.push(c).drop_first() =~= data.drop_first().push(c));
        assert(write_spec(v, data.push(c)) == write_spec(
            putchar_spec(v, data[0]),
            data.drop_first().push(c),
        ));
        lemma_write_spec_snoc(putchar_spec(v, data[0]), data.drop_first(), c);
        assert(write_spec(v, data) == write_spec(putchar_spec(v, data[0]), data.drop_first()));
    }
}

/// The Terminal Writer is responsible for writing to the character cells.
pub struct TerminalWriter {
    cursor: usize,
    color: u8,
    buffer: Vec<u16>,
}

impl View for TerminalWriter {
    type V = TermView;

    closed spec fn view(&self) -> TermView {
        TermView { cursor: self.cursor as int, color: self.color as u8, buffer: self.buffer@ }
    }
}

impl TerminalWriter {
    /// The screen holds exactly one cell per position and the cursor is on
    /// the screen.
    pub open spec fn wf(&self) -> bool {
        &&& self@.buffer.len() == VGA_WIDTH * VGA_HEIGHT
        &&& 0 <= self@.cursor < VGA_WIDTH * VGA_HEIGHT
    }

    /// A terminal with every cell filled with a space, light gray on
    /// black, and the cursor in the top left corner.
    pub fn new() -> (r: TerminalWriter)
        ensures
            r.wf(),
            r@.cursor == 0,
            r@.color == 7,
            r@.buffer == Seq::new((VGA_WIDTH * VGA_HEIGHT) as nat, |i: int| spec_vga_entry(32, 7)),
    {
        let cursor: usize = 0;
        let color = vga_entry_color(VgaColor::LightGray, VgaColor::Black);
        let blank = vga_entry(32, color);

        let mut buffer: Vec<u16> = Vec::new();
        let mut i: usize = 0;
        while i < VGA_WIDTH * VGA_HEIGHT
            invariant
                buffer.len() == i,
                i <= VGA_WIDTH * VGA_HEIGHT,
                blank == spec_vga_entry(32, 7),
                forall|k: int| 0 <= k < i ==> buffer@[k] == spec_vga_entry(32, 7),
            decreases VGA_WIDTH * VGA_HEIGHT - i,
        {
            buffer.push(blank);
            i = i + 1;
        }

        let r = TerminalWriter { cursor, color, buffer };
        proof {
            assert(r@.buffer =~= Seq::new(
                (VGA_WIDTH * VGA_HEIGHT) as nat,
                |i: int| spec_vga_entry(32, 7),
            ));
        }
        r
    }

    /// The cursor's cell index.
    pub fn cursor(&self) -> (r: usize)
        ensures
            r == self@.cursor,
    {
        self.cursor
    }

    /// The cell entry at `index`.
    pub fn cell(&self, index: usize) -> (r: u16)
        requires
            index < self@.buffer.len(),
        ensures
            r == self@.buffer[index as int],
    {
        self.buffer[index]
    }

    /// Write a string of bytes to the terminal, character by character.
    pub fn write(&mut self, data: &[u8])
        requires
            old(self).wf(),
        ensures
            final(self).wf(),
            final(self)@ == write_spec(old(self)@, data@),
    {
        let mut i: usize = 0;
        while i < data.len()
            invariant
                self.wf(),
                i <= data@.len(),
                self@ == write_spec(old(self)@, data@.take(i as int)),
            decreases data@.len() - i,
        {
            let c = data[i];
            self.putchar(c);
            proof {
                assert(data@.take(i as int).push(c) =~= data@.take(i + 1));
                lemma_write_spec_snoc(old(self)@, data@.take(i as int), c);
            }
            i = i + 1;
        }
        proof {
            assert(data@.take(data@.len() as int) =~= data@);
        }
    }

    /// Write a single byte to the terminal.
    fn putchar(&mut self, c: u8)
        requires
            old(self).wf(),
        ensures
            final(self).wf(),
            final(self)@ == putchar_spec(old(self)@, c),
    {
        // newline
        if c == 10 {
            self.cursor += VGA_WIDTH - (self.cursor % VGA_WIDTH);
            self.cursor %= VGA_WIDTH * VGA_HEIGHT;
            return ;
        }

        let entry = vga_entry(c, self.color);
        self.buffer[self.cursor] = entry;
        self.cursor += 1;
        self.cursor %= VGA_WIDTH * VGA_HEIGHT;
    }
}

} // verus!

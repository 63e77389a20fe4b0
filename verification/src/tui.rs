//! Text user interface terminal.
//!
//! A screen of character cells addressed by row and column, with a
//! cursor that wraps to the next line at the right edge and back to the
//! top line past the bottom. The cell encoding is shared with the VGA
//! terminal; writing cells to the frame buffer is left to the
//! hardware-facing code.

use crate::io::vga::{spec_vga_entry, vga_entry, vga_entry_color, VgaColor};
use vstd::prelude::*;

verus! {

/// Ghost state of the terminal: the cursor position, the current colour,
/// the screen's cells, and the screen's dimensions.
pub ghost struct TuiView {
    pub row: int,
    pub column: int,
    pub color: u8,
    pub buffer: Seq<u16>,
    pub vga_height: int,
    pub vga_width: int,
}

/// The state of the terminal after writing the single byte `c`: a newline
/// moves the cursor to the start of the next row, any other byte lands in
/// the cursor's cell and advances the column; the cursor wraps from the
/// right edge to the next row and from the bottom row to the top.
pub open spec fn tui_putchar_spec(v: TuiView, c: u8) -> TuiView {
    if c == 10 {
        TuiView {
            row: if v.row + 1 == v.vga_height {
                0
            } else {
                v.row + 1
            },
            column: 0,
            ..v
        }
    } else {
        let written = TuiView {
            buffer: v.buffer.update(v.row * v.vga_width + v.column, spec_vga_entry(c, v.color)),
            ..v
        };
        if v.column + 1 == v.vga_width {
            TuiView {
                row: if v.row + 1 == v.vga_height {
                    0
                } else {
                    v.row + 1
                },
                column: 0,
                ..written
            }
        } else {
            TuiView { column: v.column + 1, ..written }
        }
    }
}

/// The state of the terminal after writing every byte of `data` in turn.
pub open spec fn tui_write_spec(v: TuiView, data: Seq<u8>) -> TuiView
    decreases data.len(),
{
    if data.len() == 0 {
        v
    } else {
        tui_write_spec(tui_putchar_spec(v, data[0]), data.drop_first())
    }
}

/// Writing one more byte continues from where the previous ones left off.
proof fn lemma_tui_write_spec_snoc(v: TuiView, data: Seq<u8>, c: u8)
    ensures
        tui_write_spec(v, data.push(c)) == tui_putchar_spec(tui_write_spec(v, data), c),
    decreases data.len(),
{
    if data.len() == 0 {
        assert(data.push(c)[0] == c);
        assert(data.push(c).drop_first() =~= Seq::<u8>::empty());
        assert(tui_write_spec(v, data.push(c)) == tui_write_spec(
            tui_putchar_spec(v, c),
            Seq::<u8>::empty(),
        ));
        assert(tui_write_spec(tui_putchar_spec(v, c), Seq::<u8>::empty()) == tui_putchar_spec(
            v,
            c,
        ));
        assert(tui_write_spec(v, data) == v);
    } else {
        assert(data.push(c)[0] == data[0]);
        assert(data.push(c).drop_first() =~= data.drop_first().push(c));
        assert(tui_write_spec(v, data.push(c)) == tui_write_spec(
            tui_putchar_spec(v, data[0]),
            data.drop_first().push(c),
        ));
        lemma_tui_write_spec_snoc(tui_putchar_spec(v, data[0]), data.drop_first(), c);
        assert(tui_write_spec(v, data) == tui_write_spec(
            tui_putchar_spec(v, data[0]),
            data.drop_first(),
        ));
    }
}

/// The Terminal Writer is responsible for writing to the character cells.
pub struct TerminalWriter {
    row: usize,
    column: usize,
    color: u8,
    buffer: Vec<u16>,
    vga_height: usize,
    vga_width: usize,
}

impl View for TerminalWriter {
    type V = TuiView;

    closed spec fn view(&self) -> TuiView {
        TuiView {
            row: self.row as int,
            column: self.column as int,
            color: self.color as u8,
            buffer: self.buffer@,
            vga_height: self.vga_height as int,
            vga_width: self.vga_width as int,
        }
    }
}

impl TerminalWriter {
    /// The cursor is on the screen and the screen holds exactly one cell
    /// per position.
    pub open spec fn wf(&self) -> bool {
        &&& self@.vga_height >= 1
        &&& self@.vga_width >= 1
        &&& self@.buffer.len() == self@.vga_height * self@.vga_width
        &&& 0 <= self@.row < self@.vga_height
        &&& 0 <= self@.column < self@.vga_width
        &&& self@.vga_height * self@.vga_width <= usize::MAX
    }

    /// A `80 x 25` terminal with every cell filled with a space, light
    /// gray on black, and the cursor in the top left corner.
    pub fn new() -> (r: TerminalWriter)
        ensures
            r.wf(),
            r@.row == 0,
            r@.column == 0,
            r@.color == 7,
            r@.vga_height == 25,
            r@.vga_width == 80,
            r@.buffer == Seq::new(2000nat, |i: int| spec_vga_entry(32, 7)),
    {
        let vga_height: usize = 25;
        let vga_width: usize = 80;
        let row: usize = 0;
        let column: usize = 0;
        let color = vga_entry_color(VgaColor::LightGray, VgaColor::Black);

        // Fill the screen with spaces
        let blank = vga_entry(32, color);
        let mut buffer: Vec<u16> = Vec::new();
        let mut i: usize = 0;
        while i < 2000
            invariant
                buffer.len() == i,
                i <= 2000,
                blank == spec_vga_entry(32, 7),
                forall|k: int| 0 <= k < i ==> buffer@[k] == spec_vga_entry(32, 7),
            decreases 2000 - i,
        {
            buffer.push(blank);
            i = i + 1;
        }

        let r = TerminalWriter { row, column, color, buffer, vga_height, vga_width };
        proof {
            assert(r@.buffer =~= Seq::new(2000nat, |i: int| spec_vga_entry(32, 7)));
        }
        r
    }

    /// Put a character with the given colour at column `x` of row `y`.
    fn putentryat(&mut self, c: u8, color: u8, x: usize, y: usize)
        requires
            old(self).wf(),
            x < old(self)@.vga_width,
            y < old(self)@.vga_height,
        ensures
            final(self).wf(),
            final(self)@ == (TuiView {
                buffer: old(self)@.buffer.update(
                    y * old(self)@.vga_width + x,
                    spec_vga_entry(c, color),
                ),
                ..old(self)@
            }),
    {
        proof {
            assert(y * self@.vga_width + x < self@.vga_height * self@.vga_width)
                by (nonlinear_arith)
                requires
                    0 <= x < self@.vga_width,
                    0 <= y < self@.vga_height,
            ;
        }
        let index = y * self.vga_width + x;
        let entry = vga_entry(c, color);
        self.buffer[index] = entry;
    }

    /// The cursor's row.
    pub fn row(&self) -> (r: usize)
        ensures
            r == self@.row,
    {
        self.row
    }

    /// The cursor's column.
    pub fn column(&self) -> (r: usize)
        ensures
            r == self@.column,
    {
        self.column
    }

    /// The cell entry at column `x` of row `y`.
    pub fn cell(&self, x: usize, y: usize) -> (r: u16)
        requires
            self.wf(),
            x < self@.vga_width,
            y < self@.vga_height,
        ensures
            r == self@.buffer[y * self@.vga_width + x],
    {
        proof {
            assert(y * self@.vga_width + x < self@.vga_height * self@.vga_width)
                by (nonlinear_arith)
                requires
                    0 <= x < self@.vga_width,
                    0 <= y < self@.vga_height,
            ;
        }
        self.buffer[y * self.vga_width + x]
    }

    /// Write a string of bytes to the terminal, character by character.
    pub fn write(&mut self, data: &[u8])
        requires
            old(self).wf(),
        ensures
            final(self).wf(),
            final(self)@ == tui_write_spec(old(self)@, data@),
    {
        let mut i: usize = 0;
        while i < data.len()
            invariant
                self.wf(),
                i <= data@.len(),
                self@ == tui_write_spec(old(self)@, data@.take(i as int)),
            decreases data@.len() - i,
        {
            let c = data[i];
            self.putchar(c);
            proof {
                assert(data@.take(i as int).push(c) =~= data@.take(i + 1));
                lemma_tui_write_spec_snoc(old(self)@, data@.take(i as int), c);
            }
            i = i + 1;
        }
        proof {
            assert(data@.take(data@.len() as int) =~= data@);
        }
    }

    /// Write a single byte to the terminal.
    fn putchar(&mut self, c: u8)
        requires
            old(self).wf(),
        ensures
            final(self).wf(),
            final(self)@ == tui_putchar_spec(old(self)@, c),
    {
        // newline
        if c == 10 {
            self.column = 0;
            self.row += 1;
            if self.row == self.vga_height {
                self.row = 0;
            }
            return ;
        }

        let color = self.color;
        let column = self.column;
        let row = self.row;
        self.putentryat(c, color, column, row);
        self.column += 1;

        // wrap around
        if self.column == self.vga_width {
            self.column = 0;
            self.row += 1;
            if self.row == self.vga_height {
                self.row = 0;
            }
        }
    }
}

} // verus!

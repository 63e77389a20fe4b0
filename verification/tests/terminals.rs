use os1::io::vga;
use os1::tui;

#[test]
fn vga_entry_encoding() {
    assert_eq!(vga::vga_entry_color(vga::VgaColor::LightGray, vga::VgaColor::Black), 7);
    assert_eq!(vga::vga_entry_color(vga::VgaColor::White, vga::VgaColor::Blue), 15 + 16);
    assert_eq!(vga::vga_entry(b' ', 7), 0x0720);
    assert_eq!(vga::vga_entry(b'A', 0x1f), 0x1f41);
}

#[test]
fn vga_writer_starts_blank() {
    let writer = vga::TerminalWriter::new();
    assert_eq!(writer.cursor(), 0);
    assert_eq!(writer.cell(0), 0x0720);
    assert_eq!(writer.cell(1999), 0x0720);
}

#[test]
fn vga_write_advances_the_cursor() {
    let mut writer = vga::TerminalWriter::new();
    writer.write(b"hi");
    assert_eq!(writer.cursor(), 2);
    assert_eq!(writer.cell(0), 0x0768);
    assert_eq!(writer.cell(1), 0x0769);
}

#[test]
fn vga_newline_jumps_to_the_next_line() {
    let mut writer = vga::TerminalWriter::new();
    writer.write(b"ab\nc");
    assert_eq!(writer.cell(80), 0x0763);
    assert_eq!(writer.cursor(), 81);
}

#[test]
fn vga_cursor_wraps_at_the_screen_end() {
    let mut writer = vga::TerminalWriter::new();
    for _ in 0..25 {
        writer.write(b"\n");
    }
    assert_eq!(writer.cursor(), 0);
}

#[test]
fn tui_writer_starts_blank() {
    let writer = tui::TerminalWriter::new();
    assert_eq!(writer.row(), 0);
    assert_eq!(writer.column(), 0);
    assert_eq!(writer.cell(0, 0), 0x0720);
    assert_eq!(writer.cell(79, 24), 0x0720);
}

#[test]
fn tui_write_and_newline() {
    let mut writer = tui::TerminalWriter::new();
    writer.write(b"ok\ngo");
    assert_eq!(writer.cell(0, 0), 0x076f);
    assert_eq!(writer.cell(1, 0), 0x076b);
    assert_eq!(writer.cell(0, 1), 0x0767);
    assert_eq!(writer.cell(1, 1), 0x076f);
    assert_eq!(writer.row(), 1);
    assert_eq!(writer.column(), 2);
}

#[test]
fn tui_wraps_at_the_right_edge() {
    let mut writer = tui::TerminalWriter::new();
    for _ in 0..80 {
        writer.write(b"x");
    }
    assert_eq!(writer.row(), 1);
    assert_eq!(writer.column(), 0);
}

#[test]
fn tui_wraps_from_the_bottom_row() {
    let mut writer = tui::TerminalWriter::new();
    for _ in 0..25 {
        writer.write(b"\n");
    }
    assert_eq!(writer.row(), 0);
    assert_eq!(writer.column(), 0);
}

use vga_buffer::clear;
use vga_buffer::default_color;
use vga_buffer::Color;
use vga_buffer::ColorCode;
use vga_buffer::HardwareSink;
use vga_buffer::VgaBuffer;
use vga_buffer::BLANK;
use vga_buffer::COLS;
use vga_buffer::ROWS;

fn chars(grid: &VgaBuffer) -> Vec<u8> {
    let mut out = Vec::new();
    let mut i = 0;
    while i < grid.rows() * grid.cols() {
        out.push(grid.cell_at(i).character);
        i += 1;
    }
    out
}

#[test]
fn new_grid_is_blank() {
    let grid = VgaBuffer::new(3, 4);
    assert_eq!(grid.position(), 0);
    assert_eq!(grid.rows(), 3);
    assert_eq!(grid.cols(), 4);
    for i in 0..12 {
        let cell = grid.cell_at(i);
        assert_eq!(cell.character, BLANK);
        assert_eq!(cell.color, default_color());
    }
}

#[test]
fn default_dimensions_hold_a_full_screen() {
    let grid = VgaBuffer::new(ROWS, COLS);
    assert_eq!(grid.rows() * grid.cols(), 2000);
    assert_eq!(grid.position(), 0);
}

#[test]
fn plain_run_writes_in_order() {
    let mut grid = VgaBuffer::new(3, 4);
    let color = ColorCode::new(Color::White, Color::Blue);
    grid.write_str(b"AB", color);
    assert_eq!(grid.position(), 2);
    assert_eq!(grid.cell_at(0).character, b'A');
    assert_eq!(grid.cell_at(0).color, color);
    assert_eq!(grid.cell_at(1).character, b'B');
    assert_eq!(grid.cell_at(1).color, color);
    for i in 2..12 {
        assert_eq!(grid.cell_at(i).character, BLANK);
        assert_eq!(grid.cell_at(i).color, default_color());
    }
}

#[test]
fn newline_moves_to_next_line_without_scroll() {
    let mut grid = VgaBuffer::new(3, 4);
    grid.write_str(b"A\n", default_color());
    assert_eq!(grid.position(), 4);
    assert_eq!(grid.cell_at(0).character, b'A');
    for i in 1..12 {
        assert_eq!(grid.cell_at(i).character, BLANK);
    }
}

#[test]
fn newline_on_last_line_scrolls() {
    let mut grid = VgaBuffer::new(3, 4);
    grid.write_str(b"AB\nCD\n", default_color());
    assert_eq!(grid.position(), 8);
    grid.write_byte(b'\n', default_color());
    assert_eq!(grid.position(), 8);
    assert_eq!(chars(&grid), b"CD          ".to_vec());
    for i in 0..12 {
        assert_eq!(grid.cell_at(i).color, default_color());
    }
}

#[test]
fn clear_blanks_every_cell_and_resets_cursor() {
    let mut grid = VgaBuffer::new(3, 4);
    let mut sink = HardwareSink::new(24);
    grid.write_str(b"AB\nCD", ColorCode::new(Color::Red, Color::Black));
    clear(&mut grid, &mut sink);
    assert_eq!(grid.position(), 0);
    for i in 0..12 {
        let cell = grid.cell_at(i);
        assert_eq!(cell.character, BLANK);
        assert_eq!(cell.color, default_color());
    }
    for i in 0..12 {
        assert_eq!(sink.byte_at(2 * i), BLANK);
        assert_eq!(sink.byte_at(2 * i + 1), 0x0a);
    }
}

#[test]
fn clear_twice_same_as_once() {
    let mut grid = VgaBuffer::new(3, 4);
    let mut sink = HardwareSink::new(24);
    grid.write_str(b"AB\nCD\nEF", default_color());
    clear(&mut grid, &mut sink);
    let chars_once = chars(&grid);
    let position_once = grid.position();
    let bytes_once: Vec<u8> = (0..24).map(|i| sink.byte_at(i)).collect();
    clear(&mut grid, &mut sink);
    assert_eq!(chars(&grid), chars_once);
    assert_eq!(grid.position(), position_once);
    let bytes_twice: Vec<u8> = (0..24).map(|i| sink.byte_at(i)).collect();
    assert_eq!(bytes_twice, bytes_once);
}

#[test]
fn flush_copies_grid_bytes_exactly() {
    let mut grid = VgaBuffer::new(2, 3);
    let mut sink = HardwareSink::new(12);
    let color = ColorCode::new(Color::Blue, Color::Red);
    grid.write_str(b"Hi\nyo", color);
    grid.flush(&mut sink);
    assert_eq!(sink.len(), 12);
    for i in 0..6 {
        let cell = grid.cell_at(i);
        assert_eq!(sink.byte_at(2 * i), cell.character);
    }
    assert_eq!(sink.byte_at(0), b'H');
    assert_eq!(sink.byte_at(1), 0x41);
    assert_eq!(sink.byte_at(2), b'i');
    assert_eq!(sink.byte_at(4), BLANK);
    assert_eq!(sink.byte_at(5), 0x0a);
    assert_eq!(sink.byte_at(6), b'y');
    assert_eq!(sink.byte_at(8), b'o');
}

#[test]
fn scroll_scenario_three_by_four() {
    let mut grid = VgaBuffer::new(3, 4);
    grid.write_str(b"AB\nCD\nEF\nGH", default_color());
    assert_eq!(grid.position(), 10);
    assert_eq!(chars(&grid), b"CD  EF  GH  ".to_vec());
}

#[test]
fn write_on_full_grid_scrolls_first() {
    let mut grid = VgaBuffer::new(2, 2);
    grid.write_str(b"abcd", default_color());
    assert_eq!(grid.position(), 4);
    assert_eq!(chars(&grid), b"abcd".to_vec());
    grid.write_byte(b'e', default_color());
    assert_eq!(chars(&grid), b"cde ".to_vec());
    assert_eq!(grid.position(), 3);
}

#[test]
fn overflow_rolls_into_next_row_without_newline() {
    let mut grid = VgaBuffer::new(3, 4);
    grid.write_str(b"abcdef", default_color());
    assert_eq!(grid.position(), 6);
    assert_eq!(chars(&grid), b"abcdef      ".to_vec());
}

#[test]
fn empty_write_changes_nothing() {
    let mut grid = VgaBuffer::new(3, 4);
    grid.write_str(b"", default_color());
    assert_eq!(grid.position(), 0);
    assert_eq!(chars(&grid), b"            ".to_vec());
}

#[test]
fn single_row_grid_scrolls_to_blank() {
    let mut grid = VgaBuffer::new(1, 3);
    grid.write_str(b"ab\n", default_color());
    assert_eq!(grid.position(), 0);
    assert_eq!(chars(&grid), b"   ".to_vec());
}

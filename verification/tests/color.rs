use vga_buffer::default_color;
use vga_buffer::Color;
use vga_buffer::ColorCode;
use vga_buffer::HardwareSink;
use vga_buffer::VgaBuffer;

#[test]
fn default_is_light_green_on_black() {
    assert_eq!(default_color(), ColorCode::new(Color::LightGreen, Color::Black));
    assert_ne!(default_color(), ColorCode::new(Color::Black, Color::LightGreen));
}

#[test]
fn packing_puts_background_in_high_nibble() {
    let mut grid = VgaBuffer::new(1, 1);
    let mut sink = HardwareSink::new(2);
    grid.write_byte(b'X', ColorCode::new(Color::Yellow, Color::DarkGray));
    grid.flush(&mut sink);
    assert_eq!(sink.byte_at(0), b'X');
    assert_eq!(sink.byte_at(1), 0x8e);
}

#[test]
fn same_pair_packs_equal() {
    let a = ColorCode::new(Color::Red, Color::Blue);
    let b = ColorCode::new(Color::Red, Color::Blue);
    assert_eq!(a, b);
    assert_ne!(a, ColorCode::new(Color::Blue, Color::Red));
}

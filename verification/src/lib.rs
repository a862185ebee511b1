//! A text-mode display driver core: an in-memory mirror of a fixed-size
//! character grid with newline and scroll handling, and a bulk copy of the
//! grid into a hardware-sized byte sink.

pub mod color;
pub mod grid;
pub mod sink;

pub use color::Color;
pub use color::ColorCode;
pub use color::default_color;
pub use grid::clear;
pub use grid::ScreenState;
pub use grid::VgaBuffer;
pub use grid::VgaCell;
pub use grid::BLANK;
pub use grid::COLS;
pub use grid::NEWLINE;
pub use grid::ROWS;
pub use sink::HardwareSink;

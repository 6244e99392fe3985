//! Pixel output to a linear framebuffer and an 8x8 bitmap-font text console on top of it.
pub mod color;
pub mod console;
pub mod laws;
pub mod vga_buffer;

pub use color::{Color, GraphicsError};
pub use console::Console;
pub use vga_buffer::VGABuffer;

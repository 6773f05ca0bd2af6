//! A small hobby kernel's logic: a RAM disk of named files, a model of the VGA
//! text screen and its writer, keyboard decoding and the shell's command parser.

pub mod fs;
pub mod vga_buffer;
pub mod keyboard;
pub mod text;
pub mod shell;
pub mod install;

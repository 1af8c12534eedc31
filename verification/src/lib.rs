//! Text console for a freestanding x86 machine.
//!
//! The console renders ASCII text into the 80x25 character grid of the VGA
//! text buffer, one volatile store per cell, and describes the vector table
//! that routes the breakpoint trap back to it. Every function carries a
//! contract over a mathematical model of the screen, and the model's laws
//! (wrap-around, scrolling, sanitising) are proved once and for all.

pub mod interrupts;
pub mod screen;
pub mod screen_laws;
pub mod vga_buffer;
pub mod video_memory;

//! Runtime pieces of a handheld console.
//!
//! The display side turns the pixel stream of an emulation core into scanlines
//! on a display bus: `scaler` stretches or squeezes the stream to the size of
//! the display, `streamer` fills scanline buffers with it, `transfer` hands the
//! buffers to a transfer engine two at a time, and `link` frames what is sent
//! as commands or data for the display.
//!
//! The cartridge side offers a ROM that is much larger than memory: `rom`
//! answers reads from a resident first bank and a small cache of recently used
//! banks, `cache` keeps that cache, and `save` names and keeps the banks of
//! battery-backed RAM.
//!
//! The remaining modules hold the glue around both: the scanline that the core
//! draws into, buttons, the ROM menu, loading in chunks, and small helpers.

pub mod audio;
pub mod cache;
pub mod emulation;
pub mod ili9488;
pub mod input;
pub mod link;
pub mod loader;
pub mod menu;
pub mod rom;
pub mod save;
pub mod scaler;
pub mod source;
pub mod spi_device;
pub mod streamer;
pub mod transfer;
pub mod util;

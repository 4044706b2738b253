//! Ordered wallpaper palettes: the verified core of `wallfetch`.
//!
//! The library holds the decisions and the integer logic of the program:
//! choosing which wallpaper and template to read, picking the foreground
//! region of a wallpaper and the median colour of each slice of it, planning
//! how a source palette is reduced, rendering templates with ANSI colour
//! escapes, and reading and writing colours as text.

pub mod text;
pub mod palette;
pub mod reduction;
pub mod format;
pub mod colors;
pub mod extract;
pub mod config;
pub mod wallpaper;
pub mod cache;
pub mod command;

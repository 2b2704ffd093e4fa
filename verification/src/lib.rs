//! Core of hyprlaser, a laser-pointer overlay for Hyprland.
//!
//! Everything the program decides lives here: which cursor replies count, how
//! the motion trail ages, what the overlay of each output does on every
//! compositor event, and what the shader is fed. The program around it does the
//! input and output, and the arithmetic on floats.

pub mod config;
pub mod cursor_hide;
pub mod float_bits;
pub mod hypr_ipc;
pub mod overlay;
pub mod render;
pub mod scale;
pub mod text;
pub mod trail;

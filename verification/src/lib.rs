//! The verified core of colormemuch: RGB lighting control for Predator laptops
//! and towers.
//!
//! Every decision the program takes about lighting lives here: wire formats,
//! what gets written when, what is kept, and what the window shows. Sockets,
//! COM, clocks and drawing live in the binary around this library, which hands
//! it plain values and acts on plain values it gets back.

pub mod daemon;
pub mod dt;
pub mod effects;
pub mod engine;
pub mod host;
pub mod ipc;
pub mod library;
pub mod model;
pub mod number;
pub mod openrgb;
pub mod rgb;
pub mod screen;
pub mod text;
pub mod tray;
pub mod wmi;

use vstd::prelude::*;

verus! {

/// The product's name, as the window and the tray show it.
pub const APP_NAME: &'static str = "ColorMeMuch";

} // verus!

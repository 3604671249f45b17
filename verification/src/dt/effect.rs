//! Effect ids, one per entry of the vendor's menu.

use vstd::prelude::*;

verus! {

pub const STATIC: u8 = 0x00;

pub const FLASHING: u8 = 0x01;

pub const BREATHING: u8 = 0x02;

pub const TWINKLING: u8 = 0x03;

pub const RAINBOW: u8 = 0x06;

pub const WAVE: u8 = 0x09;

pub const RISING: u8 = 0x0a;

pub const STACK: u8 = 0x0b;

pub const EXPANSION: u8 = 0x0c;

pub const METEOR: u8 = 0x0d;

pub const MAGIC: u8 = 0x0e;

pub const SNAKE: u8 = 0x0f;

} // verus!

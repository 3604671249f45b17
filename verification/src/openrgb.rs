//! The OpenRGB network protocol: what goes over the socket, byte for byte.
//!
//! Every message is a 16-byte header (the magic `"ORGB"`, then the device
//! index, the command and the payload length as little-endian `u32`) followed
//! by the payload.

pub mod description;
pub mod modes;
pub mod readback;
pub mod wire;

use vstd::prelude::*;

use crate::rgb::Rgb;

verus! {

/// Where the vendor's OpenRGB server listens.
pub const DEFAULT_ADDR: &'static str = "127.0.0.1:6742";

pub const MODE_FLAG_HAS_SPEED: u32 = 0x01;

pub const MODE_FLAG_HAS_BRIGHTNESS: u32 = 0x10;

pub const MODE_FLAG_HAS_PER_LED_COLOR: u32 = 0x20;

pub const MODE_FLAG_HAS_MODE_SPECIFIC_COLOR: u32 = 0x40;

/// The controller can persist this mode to onboard flash on request.
pub const MODE_FLAG_MANUAL_SAVE: u32 = 0x100;

/// The controller persists automatically whenever the mode is applied.
pub const MODE_FLAG_AUTOMATIC_SAVE: u32 = 0x200;

/// Direction bits: left-right, up-down, horizontal-vertical.
pub const MODE_FLAGS_DIRECTION: u32 = 0x0E;

/// A reply or a request that the protocol layer refuses.
#[derive(Clone, Copy, Debug, PartialEq, Eq, Structural)]
pub enum WireError {
    /// The reply does not start with the magic.
    BadMagic,
    /// The controller count reply is shorter than its number.
    ShortCount,
    /// The controller description is shorter than its fixed head.
    ShortBlob,
    /// The controller has no mode of the requested name.
    NoSuchMode,
}

impl WireError {
    pub open spec fn text(self) -> Seq<char> {
        match self {
            WireError::BadMagic => "bad OpenRGB reply magic"@,
            WireError::ShortCount => "short count reply"@,
            WireError::ShortBlob => "controller blob too short"@,
            WireError::NoSuchMode => "no such mode"@,
        }
    }

    /// The message shown for this error.
    pub fn message(self) -> (r: &'static str)
        ensures
            r@ == self.text(),
    {
        match self {
            WireError::BadMagic => "bad OpenRGB reply magic",
            WireError::ShortCount => "short count reply",
            WireError::ShortBlob => "controller blob too short",
            WireError::NoSuchMode => "no such mode",
        }
    }

    /// Whether something was asked for that does not exist (every other error
    /// is malformed data).
    pub fn is_not_found(self) -> (r: bool)
        ensures
            r == (self is NoSuchMode),
    {
        matches!(self, WireError::NoSuchMode)
    }
}

/// A controller as described by the server: enough of it to address every LED.
#[derive(Debug)]
pub struct Controller {
    pub index: u32,
    pub name: String,
    pub vendor: String,
    pub description: String,
    pub location: String,
    pub serial: String,
    /// Raw OpenRGB device type (0..=19).
    pub dev_type: i32,
    pub modes: Vec<Mode>,
    pub active_mode: usize,
    pub zones: Vec<ZoneDesc>,
    /// Per-LED names, parallel to the flat LED and color vectors.
    pub leds: Vec<String>,
    /// Current per-LED colors (the last ones set, not a hardware read).
    pub colors: Vec<Rgb>,
    pub led_count: u16,
}

/// One zone of a controller, with its topology.
#[derive(Debug)]
pub struct ZoneDesc {
    pub name: String,
    /// Raw OpenRGB zone type: 0 = single, 1 = linear, 2 = matrix.
    pub kind: i32,
    pub leds_min: u32,
    pub leds_max: u32,
    pub leds_count: u32,
    /// Start index into the controller's flat LED vector.
    pub start: u32,
    pub matrix: Option<MatrixDesc>,
}

/// A matrix zone's 2-D key map, row-major; `None` marks a gap.
#[derive(Debug)]
pub struct MatrixDesc {
    pub height: u32,
    pub width: u32,
    pub map: Vec<Option<u32>>,
}

/// A firmware effect, with its tunable ranges and current parameters. Once set,
/// the controller animates it on its own.
#[derive(Debug)]
pub struct Mode {
    pub index: u32,
    pub name: String,
    pub value: i32,
    pub flags: u32,
    pub speed_min: u32,
    pub speed_max: u32,
    pub brightness_min: u32,
    pub brightness_max: u32,
    pub colors_min: u32,
    pub colors_max: u32,
    pub speed: u32,
    pub brightness: u32,
    pub direction: u32,
    pub color_mode: u32,
    pub colors: Vec<u32>,
}

/// No two refusals read alike.
pub proof fn messages_tell_errors_apart(a: WireError, b: WireError)
    requires
        a.text() == b.text(),
    ensures
        a == b,
{
    reveal_strlit("bad OpenRGB reply magic");
    reveal_strlit("short count reply");
    reveal_strlit("controller blob too short");
    reveal_strlit("no such mode");
    let x = a.text();
    let y = b.text();
    assert(x[0] == y[0] && x[1] == y[1]);
}

} // verus!

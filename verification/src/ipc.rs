//! The contract between the window and the service: length-prefixed frames over
//! a named pipe, request and response only.

use vstd::prelude::*;

use crate::engine::{EngineState, HwSpec};
use crate::model::DeviceDescriptor;
use crate::openrgb::description::le32;
use crate::openrgb::wire::{bytes32, push_u32, u32_reads_back};

verus! {

/// The pipe that the service serves and the window connects to.
pub const PIPE_NAME: &'static str = "colormemuch-svc";

/// From the window to the service.
#[derive(Debug)]
pub enum ClientMsg {
    /// Handshake on connect.
    Hello,
    /// Apply a resolved state, and keep it.
    SetState(EngineState),
    /// Keep a firmware mode in a device's flash.
    SaveFirmware { device: usize, spec: HwSpec },
    /// Drop and re-establish the hardware connection.
    Reconnect,
    /// Ask for the current status.
    Poll,
}

/// From the service to the window.
#[derive(Debug)]
pub enum ServerMsg {
    Status {
        connected: bool,
        error: Option<String>,
        on_battery: bool,
        /// The current device list.
        controllers: Option<Vec<DeviceDescriptor>>,
        dt_available: bool,
        dt_error: Option<String>,
    },
    SaveResult(Result<bool, String>),
    /// Understood, with nothing to report.
    Done,
}

/// Length of a frame's prefix.
pub const PREFIX_LEN: usize = 4;

/// A frame: the payload's length as a little-endian `u32`, then the payload.
pub open spec fn framed(payload: Seq<u8>) -> Seq<u8> {
    bytes32((payload.len() % 0x1_0000_0000) as int) + payload
}

/// Frames a payload.
pub fn frame(payload: &[u8]) -> (r: Vec<u8>)
    ensures
        r@ == framed(payload@),
{
    let mut out: Vec<u8> = Vec::new();
    push_u32(&mut out, (payload.len() as u64 % 0x1_0000_0000) as u32);
    out.extend_from_slice(payload);
    assert(out@ =~= framed(payload@));
    out
}

/// The payload length that a frame's prefix announces.
pub fn frame_len(prefix: &[u8; 4]) -> (r: u32)
    ensures
        r == le32(prefix@, 0),
{
    reveal(le32);
    prefix[0] as u32 + 0x100 * (prefix[1] as u32) + 0x1_0000 * (prefix[2] as u32) + 0x100_0000 * (
    prefix[3] as u32)
}

/// A frame reads back: its prefix announces its payload, and the payload follows
/// the prefix. Only a payload shorter than 4 GiB has its length announced.
pub proof fn frames_read_back(payload: Seq<u8>)
    requires
        payload.len() < 0x1_0000_0000,
    ensures
        le32(framed(payload).take(PREFIX_LEN as int), 0) == payload.len(),
        framed(payload).skip(PREFIX_LEN as int) == payload,
{
    let none = Seq::<u8>::empty();
    let head = framed(payload).take(PREFIX_LEN as int);
    assert(head =~= none + bytes32(payload.len() as int) + none);
    u32_reads_back(none, payload.len() as int, none);
    assert(framed(payload).skip(PREFIX_LEN as int) =~= payload);
}

/// A stream of frames reads back one by one: after a frame, the next one starts.
pub proof fn frames_follow_each_other(payload: Seq<u8>, rest: Seq<u8>)
    requires
        payload.len() < 0x1_0000_0000,
    ensures
        le32(framed(payload) + rest, 0) == payload.len(),
        (framed(payload) + rest).subrange(PREFIX_LEN as int, PREFIX_LEN + payload.len()) == payload,
        (framed(payload) + rest).skip(PREFIX_LEN + payload.len()) == rest,
{
    let none = Seq::<u8>::empty();
    let stream = framed(payload) + rest;
    assert(stream =~= none + bytes32(payload.len() as int) + (payload + rest));
    u32_reads_back(none, payload.len() as int, payload + rest);
    assert(stream.subrange(PREFIX_LEN as int, PREFIX_LEN + payload.len()) =~= payload);
    assert(stream.skip(PREFIX_LEN + payload.len()) =~= rest);
}

} // verus!

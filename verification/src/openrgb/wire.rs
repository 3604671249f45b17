//! Writing messages: headers, mode records and color payloads.

use vstd::arithmetic::div_mod::{lemma_add_mod_noop, lemma_div_denominator};
use vstd::prelude::*;
use vstd::utf8::{encode_utf8, encode_utf8_decode_utf8, encode_utf8_valid_utf8};

use crate::openrgb::description::{
    byte_at, color_of, le16, le32, mode_at, mode_end, raw_text, signed, text_at, text_end,
    without_nul,
};
use crate::openrgb::{
    Mode, WireError, MODE_FLAGS_DIRECTION, MODE_FLAG_AUTOMATIC_SAVE, MODE_FLAG_MANUAL_SAVE,
};
use crate::rgb::Rgb;

verus! {

pub const SET_CLIENT_NAME: u32 = 50;

pub const REQUEST_CONTROLLER_COUNT: u32 = 0;

pub const REQUEST_CONTROLLER_DATA: u32 = 1;

pub const UPDATE_LEDS: u32 = 1050;

pub const UPDATE_ZONE_LEDS: u32 = 1051;

pub const SET_CUSTOM_MODE: u32 = 1053;

pub const UPDATE_MODE: u32 = 1100;

pub const SAVE_MODE: u32 = 1101;

/// Protocol version advertised when requesting controller data; it fixes the
/// layout that descriptions come in.
pub const CLIENT_PROTOCOL_VERSION: u32 = 4;

/// Length of a message header.
pub const HEADER_LEN: usize = 16;

// ------------------------------------------------------------- primitives

/// The two bytes of a `u16`, low byte first.
pub open spec fn bytes16(v: int) -> Seq<u8> {
    seq![(v % 256) as u8, ((v / 0x100) % 256) as u8]
}

/// The four bytes of a `u32`, low byte first.
pub open spec fn bytes32(v: int) -> Seq<u8> {
    seq![
        (v % 256) as u8,
        ((v / 0x100) % 256) as u8,
        ((v / 0x1_0000) % 256) as u8,
        ((v / 0x100_0000) % 256) as u8,
    ]
}

/// A two's complement number as a 32-bit pattern.
pub open spec fn pattern(v: int) -> int {
    if v < 0 {
        v + 0x1_0000_0000
    } else {
        v
    }
}

pub fn push_u16(out: &mut Vec<u8>, v: u16)
    ensures
        final(out)@ == old(out)@ + bytes16(v as int),
{
    out.push((v % 256) as u8);
    out.push(((v / 0x100) % 256) as u8);
    assert(out@ =~= old(out)@ + bytes16(v as int));
}

pub fn push_u32(out: &mut Vec<u8>, v: u32)
    ensures
        final(out)@ == old(out)@ + bytes32(v as int),
{
    out.push((v % 256) as u8);
    out.push(((v / 0x100) % 256) as u8);
    out.push(((v / 0x1_0000) % 256) as u8);
    out.push(((v / 0x100_0000) % 256) as u8);
    assert(out@ =~= old(out)@ + bytes32(v as int));
}

/// A two's complement number as a 32-bit pattern.
pub fn to_pattern(v: i32) -> (r: u32)
    ensures
        r == pattern(v as int),
{
    if v < 0 {
        (v as i64 + 0x1_0000_0000) as u32
    } else {
        v as u32
    }
}

/// A text record: the length of what follows as a `u16`, the text's UTF-8
/// bytes, a NUL.
pub open spec fn text_bytes(text: Seq<char>) -> Seq<u8> {
    bytes16(((encode_utf8(text).len() + 1) % 0x1_0000) as int) + encode_utf8(text) + seq![0u8]
}

/// Appends a text record.
pub fn write_string(buf: &mut Vec<u8>, s: &str)
    ensures
        final(buf)@ == old(buf)@ + text_bytes(s@),
{
    let bytes = s.as_bytes();
    let low: u32 = (bytes.len() % 0x1_0000) as u32;
    proof {
        lemma_add_mod_noop(bytes@.len() as int, 1, 0x1_0000);
    }
    push_u16(buf, ((low + 1) % 0x1_0000) as u16);
    buf.extend_from_slice(bytes);
    buf.push(0);
    assert(buf@ =~= old(buf)@ + text_bytes(s@));
}

/// A color packed as `R | G << 8 | B << 16`.
pub open spec fn packed_color(c: Rgb) -> int {
    c.0 + 0x100 * c.1 + 0x1_0000 * c.2
}

/// Packs a color as `R | G << 8 | B << 16`.
pub fn color_u32(c: Rgb) -> (r: u32)
    ensures
        r == packed_color(c),
{
    c.0 as u32 + 0x100 * (c.1 as u32) + 0x1_0000 * (c.2 as u32)
}

/// Splitting a low byte off a number.
pub(crate) proof fn low_byte_of_sum(n: int, low: int, rest: int)
    requires
        0 <= low < 256,
        n == low + 256 * rest,
    ensures
        n / 256 == rest,
        n % 256 == low,
{
}

/// Unpacking a packed color gives the color back.
pub proof fn packed_colors_unpack(c: Rgb)
    ensures
        color_of(packed_color(c)) == c,
{
    let n = packed_color(c);
    let n1 = c.1 + 256 * c.2;
    low_byte_of_sum(n, c.0 as int, n1);
    low_byte_of_sum(n1, c.1 as int, c.2 as int);
    assert(n / 0x1_0000 == c.2) by {
        lemma_div_denominator(n, 256, 256);
    }
}

/// A packed color has red in its low byte, then green, then blue, and nothing
/// above.
pub proof fn packed_color_bytes(c: Rgb)
    ensures
        0 <= packed_color(c) < 0x100_0000,
        packed_color(c) % 256 == c.0,
        (packed_color(c) / 256) % 256 == c.1,
        packed_color(c) / 0x1_0000 == c.2,
{
    let n = packed_color(c);
    let n1 = c.1 + 256 * c.2;
    low_byte_of_sum(n, c.0 as int, n1);
    low_byte_of_sum(n1, c.1 as int, c.2 as int);
    assert(n / 0x1_0000 == c.2) by {
        lemma_div_denominator(n, 256, 256);
    }
}

// ------------------------------------------------------------------ modes

/// A run of `u32` values.
pub open spec fn words(v: Seq<u32>) -> Seq<u8>
    decreases v.len(),
{
    if v.len() == 0 {
        Seq::empty()
    } else {
        words(v.drop_last()) + bytes32(v.last() as int)
    }
}

fn push_words(out: &mut Vec<u8>, v: &[u32])
    ensures
        final(out)@ == old(out)@ + words(v@),
{
    let mut i: usize = 0;
    assert(v@.take(0).len() == 0);
    assert(out@ =~= old(out)@ + words(v@.take(0)));
    while i < v.len()
        invariant
            i <= v@.len(),
            out@ == old(out)@ + words(v@.take(i as int)),
        decreases v@.len() - i,
    {
        push_u32(out, v[i]);
        proof {
            let next = v@.take(i + 1);
            assert(next.drop_last() =~= v@.take(i as int));
            assert(out@ =~= old(out)@ + words(next));
        }
        i += 1;
    }
    assert(v@.take(i as int) =~= v@);
}

/// The twelve fixed numbers of a mode record, in order.
pub open spec fn mode_words(m: Mode) -> Seq<u32> {
    seq![
        pattern(m.value as int) as u32,
        m.flags,
        m.speed_min,
        m.speed_max,
        m.brightness_min,
        m.brightness_max,
        m.colors_min,
        m.colors_max,
        m.speed,
        m.brightness,
        m.direction,
        m.color_mode,
    ]
}

/// A mode record: its name, its fixed numbers, the count of its colors, its
/// colors.
pub open spec fn mode_bytes(m: Mode) -> Seq<u8> {
    text_bytes(m.name@) + words(mode_words(m)) + bytes16((m.colors@.len() % 0x1_0000) as int)
        + words(m.colors@)
}

impl Mode {
    /// The same mode: all fields equal, texts and colors by content.
    pub open spec fn same_as(self, other: Mode) -> bool {
        &&& self.index == other.index
        &&& self.name@ == other.name@
        &&& self.value == other.value
        &&& self.flags == other.flags
        &&& self.speed_min == other.speed_min
        &&& self.speed_max == other.speed_max
        &&& self.brightness_min == other.brightness_min
        &&& self.brightness_max == other.brightness_max
        &&& self.colors_min == other.colors_min
        &&& self.colors_max == other.colors_max
        &&& self.speed == other.speed
        &&& self.brightness == other.brightness
        &&& self.direction == other.direction
        &&& self.color_mode == other.color_mode
        &&& self.colors@ == other.colors@
    }

    pub fn has_speed(&self) -> (r: bool)
        ensures
            r == (self.speed_max > self.speed_min),
    {
        self.speed_max > self.speed_min
    }

    pub fn has_brightness(&self) -> (r: bool)
        ensures
            r == (self.brightness_max > self.brightness_min),
    {
        self.brightness_max > self.brightness_min
    }

    pub fn takes_color(&self) -> (r: bool)
        ensures
            r == (self.colors_max > 0),
    {
        self.colors_max > 0
    }

    pub open spec fn savable(self) -> bool {
        self.flags & (MODE_FLAG_MANUAL_SAVE | MODE_FLAG_AUTOMATIC_SAVE) != 0
    }

    pub open spec fn saves_on_request(self) -> bool {
        self.flags & MODE_FLAG_MANUAL_SAVE != 0
    }

    /// Whether the mode can be kept in onboard flash, so that it survives a
    /// power cycle.
    pub fn can_save(&self) -> (r: bool)
        ensures
            r == self.savable(),
    {
        self.flags & (MODE_FLAG_MANUAL_SAVE | MODE_FLAG_AUTOMATIC_SAVE) != 0
    }

    /// Whether keeping the mode takes a save of its own.
    pub fn needs_manual_save(&self) -> (r: bool)
        ensures
            r == self.saves_on_request(),
    {
        self.flags & MODE_FLAG_MANUAL_SAVE != 0
    }

    /// Whether the mode has any direction.
    pub fn has_direction(&self) -> (r: bool)
        ensures
            r == (self.flags & MODE_FLAGS_DIRECTION != 0),
    {
        self.flags & MODE_FLAGS_DIRECTION != 0
    }

    /// The mode record, without the size and index that frame it.
    pub fn to_bytes(&self) -> (r: Vec<u8>)
        ensures
            r@ == mode_bytes(*self),
    {
        let fields: [u32; 12] = [
            to_pattern(self.value),
            self.flags,
            self.speed_min,
            self.speed_max,
            self.brightness_min,
            self.brightness_max,
            self.colors_min,
            self.colors_max,
            self.speed,
            self.brightness,
            self.direction,
            self.color_mode,
        ];
        assert(fields@ =~= mode_words(*self));
        let mut b: Vec<u8> = Vec::new();
        write_string(&mut b, self.name.as_str());
        push_words(&mut b, &fields);
        push_u16(&mut b, (self.colors.len() % 0x1_0000) as u16);
        push_words(&mut b, &self.colors);
        assert(b@ =~= mode_bytes(*self));
        b
    }
}

impl Clone for Mode {
    fn clone(&self) -> (r: Self)
        ensures
            r.same_as(*self),
    {
        Mode {
            index: self.index,
            name: self.name.clone(),
            value: self.value,
            flags: self.flags,
            speed_min: self.speed_min,
            speed_max: self.speed_max,
            brightness_min: self.brightness_min,
            brightness_max: self.brightness_max,
            colors_min: self.colors_min,
            colors_max: self.colors_max,
            speed: self.speed,
            brightness: self.brightness,
            direction: self.direction,
            color_mode: self.color_mode,
            colors: self.colors.clone(),
        }
    }
}

// --------------------------------------------------------------- messages

/// The four bytes every header starts with.
pub open spec fn magic() -> Seq<u8> {
    seq![0x4Fu8, 0x52, 0x47, 0x42]
}

/// A message header.
pub open spec fn header_bytes(device: u32, command: u32, size: int) -> Seq<u8> {
    magic() + bytes32(device as int) + bytes32(command as int) + bytes32(size)
}

/// A whole message.
pub fn message(device: u32, command: u32, payload: &[u8]) -> (r: Vec<u8>)
    ensures
        r@ == header_bytes(device, command, (payload@.len() % 0x1_0000_0000) as int) + payload@,
{
    let mut msg: Vec<u8> = Vec::new();
    msg.push(0x4F);
    msg.push(0x52);
    msg.push(0x47);
    msg.push(0x42);
    assert(msg@ =~= magic());
    push_u32(&mut msg, device);
    push_u32(&mut msg, command);
    push_u32(&mut msg, (payload.len() as u64 % 0x1_0000_0000) as u32);
    msg.extend_from_slice(payload);
    msg
}

/// The payload length that a reply header announces.
pub fn reply_size(header: &[u8; 16]) -> (r: Result<u32, WireError>)
    ensures
        match r {
            Ok(n) => header@.take(4) == magic() && n == le32(header@, 12),
            Err(e) => header@.take(4) != magic() && e == WireError::BadMagic,
        },
{
    reveal(le32);
    if header[0] != 0x4F || header[1] != 0x52 || header[2] != 0x47 || header[3] != 0x42 {
        proof {
            let t = header@.take(4);
            assert(t[0] == header@[0] && t[1] == header@[1] && t[2] == header@[2] && t[3]
                == header@[3]);
        }
        return Err(WireError::BadMagic);
    }
    assert(header@.take(4) =~= magic());
    Ok(
        header[12] as u32 + 0x100 * (header[13] as u32) + 0x1_0000 * (header[14] as u32)
            + 0x100_0000 * (header[15] as u32),
    )
}

/// The number in a controller count reply.
pub fn count_of(reply: &[u8]) -> (r: Result<u32, WireError>)
    ensures
        match r {
            Ok(n) => reply@.len() >= 4 && n == le32(reply@, 0),
            Err(e) => reply@.len() < 4 && e == WireError::ShortCount,
        },
{
    reveal(le32);
    if reply.len() < 4 {
        return Err(WireError::ShortCount);
    }
    Ok(
        reply[0] as u32 + 0x100 * (reply[1] as u32) + 0x1_0000 * (reply[2] as u32) + 0x100_0000 * (
        reply[3] as u32),
    )
}

/// The payload that asks for a controller's description.
pub fn description_request() -> (r: Vec<u8>)
    ensures
        r@ == bytes32(CLIENT_PROTOCOL_VERSION as int),
{
    let mut b: Vec<u8> = Vec::new();
    push_u32(&mut b, CLIENT_PROTOCOL_VERSION);
    assert(b@ =~= bytes32(CLIENT_PROTOCOL_VERSION as int));
    b
}

/// The payload that registers the client.
pub fn client_name() -> (r: Vec<u8>)
    ensures
        r@ == seq![
            0x63u8, 0x6F, 0x6C, 0x6F, 0x72, 0x6D, 0x65, 0x6D, 0x75, 0x63, 0x68, 0x00,
        ],
{
    vec![0x63u8, 0x6F, 0x6C, 0x6F, 0x72, 0x6D, 0x65, 0x6D, 0x75, 0x63, 0x68, 0x00]
}

/// The color that LED `i` gets from a run of colors: its own, or the last one
/// where the run is too short, or black where there is none.
pub open spec fn color_for(colors: Seq<Rgb>, i: int) -> Rgb {
    if i < colors.len() {
        colors[i]
    } else if colors.len() > 0 {
        colors.last()
    } else {
        Rgb(0, 0, 0)
    }
}

/// One LED's color on the wire.
pub open spec fn led_bytes(c: Rgb) -> Seq<u8> {
    seq![c.0, c.1, c.2, 0u8]
}

/// The colors of `n` LEDs on the wire.
pub open spec fn leds_bytes(colors: Seq<Rgb>, n: nat) -> Seq<u8>
    decreases n,
{
    if n == 0 {
        Seq::empty()
    } else {
        leds_bytes(colors, (n - 1) as nat) + led_bytes(color_for(colors, n - 1))
    }
}

proof fn leds_bytes_len(colors: Seq<Rgb>, n: nat)
    ensures
        leds_bytes(colors, n).len() == 4 * n,
    decreases n,
{
    if n > 0 {
        leds_bytes_len(colors, (n - 1) as nat);
    }
}

fn push_leds(out: &mut Vec<u8>, colors: &[Rgb], n: u32)
    ensures
        final(out)@ == old(out)@ + leds_bytes(colors@, n as nat),
{
    let fallback = if colors.len() > 0 {
        colors[colors.len() - 1]
    } else {
        Rgb(0, 0, 0)
    };
    let mut i: u32 = 0;
    assert(out@ =~= old(out)@ + leds_bytes(colors@, 0));
    while i < n
        invariant
            i <= n,
            colors@.len() > 0 ==> fallback == colors@.last(),
            colors@.len() == 0 ==> fallback == Rgb(0, 0, 0),
            out@ == old(out)@ + leds_bytes(colors@, i as nat),
        decreases n - i,
    {
        let c = if (i as u64) < colors.len() as u64 {
            colors[i as usize]
        } else {
            fallback
        };
        out.push(c.0);
        out.push(c.1);
        out.push(c.2);
        out.push(0);
        assert(out@ =~= old(out)@ + leds_bytes(colors@, (i + 1) as nat));
        i += 1;
    }
}

/// The payload that sets every LED of a controller: its own length, the LED
/// count, the colors.
pub open spec fn update_leds_bytes(led_count: u16, colors: Seq<Rgb>) -> Seq<u8> {
    bytes32(6 + 4 * led_count) + bytes16(led_count as int) + leds_bytes(colors, led_count as nat)
}

/// The payload that sets every LED of a controller. A run shorter than the LED
/// count repeats its last color; a longer one is cut.
pub fn update_leds_payload(led_count: u16, colors: &[Rgb]) -> (r: Vec<u8>)
    ensures
        r@ == update_leds_bytes(led_count, colors@),
        r@.len() == 6 + 4 * led_count,
{
    let mut payload: Vec<u8> = Vec::new();
    push_u32(&mut payload, 6 + 4 * (led_count as u32));
    push_u16(&mut payload, led_count);
    push_leds(&mut payload, colors, led_count as u32);
    proof {
        leds_bytes_len(colors@, led_count as nat);
        assert(payload@ =~= update_leds_bytes(led_count, colors@));
    }
    payload
}

/// The payload that sets the LEDs of one zone: its own length, the zone, the
/// LED count, the colors.
pub open spec fn update_zone_bytes(zone: int, count: u32, colors: Seq<Rgb>) -> Seq<u8> {
    bytes32((10 + 4 * count) % 0x1_0000_0000) + bytes32(zone % 0x1_0000_0000) + bytes16(
        (count % 0x1_0000) as int,
    ) + leds_bytes(colors, count as nat)
}

/// The payload that sets the `count` LEDs of the zone `zone`.
pub fn update_zone_payload(zone: usize, count: u32, colors: &[Rgb]) -> (r: Vec<u8>)
    ensures
        r@ == update_zone_bytes(zone as int, count, colors@),
{
    let mut payload: Vec<u8> = Vec::new();
    push_u32(&mut payload, ((10 + 4 * (count as u64)) % 0x1_0000_0000) as u32);
    push_u32(&mut payload, (zone as u64 % 0x1_0000_0000) as u32);
    push_u16(&mut payload, (count % 0x1_0000) as u16);
    push_leds(&mut payload, colors, count);
    assert(payload@ =~= update_zone_bytes(zone as int, count, colors@));
    payload
}

/// The payload that sets or saves a mode: its own length, the mode's index, the
/// mode record.
pub open spec fn mode_payload_bytes(m: Mode) -> Seq<u8> {
    bytes32(((8 + mode_bytes(m).len()) % 0x1_0000_0000) as int) + bytes32(m.index as int)
        + mode_bytes(m)
}

/// The payload that sets or saves a mode.
pub fn mode_payload(m: &Mode) -> (r: Vec<u8>)
    ensures
        r@ == mode_payload_bytes(*m),
{
    let bytes = m.to_bytes();
    let low: u64 = bytes.len() as u64 % 0x1_0000_0000;
    proof {
        lemma_add_mod_noop(8, bytes@.len() as int, 0x1_0000_0000);
    }
    let mut payload: Vec<u8> = Vec::new();
    push_u32(&mut payload, ((low + 8) % 0x1_0000_0000) as u32);
    push_u32(&mut payload, m.index);
    payload.extend_from_slice(&bytes);
    assert(payload@ =~= mode_payload_bytes(*m));
    payload
}

/// The commands that keep a mode in onboard flash, in order. None where the
/// mode cannot be kept; the mode is made active first, so that what is saved is
/// what is showing.
pub fn save_commands(m: &Mode) -> (r: Vec<u32>)
    ensures
        !m.savable() ==> r@ == Seq::<u32>::empty(),
        m.savable() && !m.saves_on_request() ==> r@ == seq![UPDATE_MODE],
        m.savable() && m.saves_on_request() ==> r@ == seq![UPDATE_MODE, SAVE_MODE],
{
    let mut out: Vec<u32> = Vec::new();
    if m.can_save() {
        out.push(UPDATE_MODE);
        if m.needs_manual_save() {
            out.push(SAVE_MODE);
        }
    }
    out
}

// ------------------------------------------------------------------- laws

proof fn byte_at_shift(pre: Seq<u8>, mid: Seq<u8>, post: Seq<u8>, i: int)
    requires
        0 <= i < mid.len(),
    ensures
        byte_at(pre + mid + post, pre.len() + i) == mid[i],
{
}

/// Reading back a `u16` gives the number written, wherever it was written.
pub proof fn u16_reads_back(pre: Seq<u8>, v: int, post: Seq<u8>)
    requires
        0 <= v < 0x1_0000,
    ensures
        le16(pre + bytes16(v) + post, pre.len() as int) == v,
{
    reveal(le16);
    byte_at_shift(pre, bytes16(v), post, 0);
    byte_at_shift(pre, bytes16(v), post, 1);
}

/// Reading back a `u32` gives the number written, wherever it was written.
pub proof fn u32_reads_back(pre: Seq<u8>, v: int, post: Seq<u8>)
    requires
        0 <= v < 0x1_0000_0000,
    ensures
        le32(pre + bytes32(v) + post, pre.len() as int) == v,
{
    reveal(le32);
    byte_at_shift(pre, bytes32(v), post, 0);
    byte_at_shift(pre, bytes32(v), post, 1);
    byte_at_shift(pre, bytes32(v), post, 2);
    byte_at_shift(pre, bytes32(v), post, 3);
}

/// Reading back a signed number gives the number written.
pub proof fn i32_reads_back(pre: Seq<u8>, v: i32, post: Seq<u8>)
    ensures
        signed(le32(pre + bytes32(pattern(v as int)) + post, pre.len() as int)) == v,
{
    u32_reads_back(pre, pattern(v as int), post);
}

/// Reading back a text record gives the text written, and ends where the
/// record ends. Only a text whose bytes and NUL fit the `u16` length can be
/// read back.
pub proof fn text_reads_back(pre: Seq<u8>, text: Seq<char>, post: Seq<u8>)
    requires
        encode_utf8(text).len() + 1 < 0x1_0000,
    ensures
        text_at(pre + text_bytes(text) + post, pre.len() as int) == text,
        text_end(pre + text_bytes(text) + post, pre.len() as int) == pre.len() + text_bytes(text).len(),
{
    let utf = encode_utf8(text);
    let n = utf.len() + 1;
    let b = pre + text_bytes(text) + post;
    let p = pre.len() as int;
    let rest = utf + seq![0u8] + post;
    assert(b =~= pre + bytes16(n as int) + rest);
    u16_reads_back(pre, n as int, rest);
    let raw = raw_text(b, p);
    assert(raw =~= utf + seq![0u8]);
    assert(without_nul(raw) =~= utf);
    encode_utf8_valid_utf8(text);
    encode_utf8_decode_utf8(text);
}

pub(crate) proof fn words_len(v: Seq<u32>)
    ensures
        words(v).len() == 4 * v.len(),
    decreases v.len(),
{
    if v.len() > 0 {
        words_len(v.drop_last());
    }
}

pub(crate) proof fn words_read_back(pre: Seq<u8>, v: Seq<u32>, post: Seq<u8>, j: int)
    requires
        0 <= j < v.len(),
    ensures
        le32(pre + words(v) + post, pre.len() + 4 * j) == v[j],
    decreases v.len(),
{
    let init = v.drop_last();
    words_len(init);
    let b = pre + words(v) + post;
    if j == v.len() - 1 {
        assert(b =~= (pre + words(init)) + bytes32(v.last() as int) + post);
        u32_reads_back(pre + words(init), v.last() as int, post);
    } else {
        assert(b =~= pre + words(init) + (bytes32(v.last() as int) + post));
        words_read_back(pre, init, bytes32(v.last() as int) + post, j);
    }
}

/// Reading back a mode record gives the mode written, and ends where the record
/// ends, wherever in a description it stands. Only a mode whose name and color
/// count fit their `u16` lengths can be read back.
pub proof fn mode_reads_back(pre: Seq<u8>, m: Mode, post: Seq<u8>)
    requires
        encode_utf8(m.name@).len() + 1 < 0x1_0000,
        m.colors@.len() < 0x1_0000,
    ensures
        mode_at(m, m.index as int, pre + mode_bytes(m) + post, pre.len() as int),
        mode_end(pre + mode_bytes(m) + post, pre.len() as int) == pre.len() + mode_bytes(m).len(),
{
    let b = pre + mode_bytes(m) + post;
    let name = text_bytes(m.name@);
    let fields = words(mode_words(m));
    let count = bytes16(m.colors@.len() as int);
    let colors = words(m.colors@);
    let p = pre.len() as int;
    words_len(mode_words(m));
    words_len(m.colors@);
    assert(b =~= pre + name + (fields + count + colors + post));
    text_reads_back(pre, m.name@, fields + count + colors + post);
    let s = text_end(b, p);
    assert forall|k: int| 0 <= k < 12 implies le32(b, s + 4 * k) == #[trigger] mode_words(m)[k] by {
        assert(b =~= (pre + name) + fields + (count + colors + post));
        words_read_back(pre + name, mode_words(m), count + colors + post, k);
    }
    assert(le32(b, s) == mode_words(m)[0]);
    assert(le32(b, s + 4) == mode_words(m)[1]);
    assert(le32(b, s + 8) == mode_words(m)[2]);
    assert(le32(b, s + 12) == mode_words(m)[3]);
    assert(le32(b, s + 16) == mode_words(m)[4]);
    assert(le32(b, s + 20) == mode_words(m)[5]);
    assert(le32(b, s + 24) == mode_words(m)[6]);
    assert(le32(b, s + 28) == mode_words(m)[7]);
    assert(le32(b, s + 32) == mode_words(m)[8]);
    assert(le32(b, s + 36) == mode_words(m)[9]);
    assert(le32(b, s + 40) == mode_words(m)[10]);
    assert(le32(b, s + 44) == mode_words(m)[11]);
    let head = pre + name + fields;
    assert(b =~= head + count + (colors + post));
    u16_reads_back(head, m.colors@.len() as int, colors + post);
    let colored = head + count;
    assert forall|j: int| 0 <= j < m.colors@.len() implies #[trigger] m.colors@[j] == le32(
        b,
        s + 50 + 4 * j,
    ) by {
        assert(b =~= colored + colors + post);
        words_read_back(colored, m.colors@, post, j);
    }
}

/// A message's header announces its payload: the magic is accepted, the length
/// field is the payload's length and the payload follows the header. Only a
/// payload shorter than 4 GiB has its length announced.
pub proof fn messages_announce_their_payload(device: u32, command: u32, payload: Seq<u8>)
    requires
        payload.len() < 0x1_0000_0000,
    ensures
        ({
            let msg = header_bytes(device, command, payload.len() as int) + payload;
            &&& msg.take(4) == magic()
            &&& le32(msg, 4) == device
            &&& le32(msg, 8) == command
            &&& le32(msg, 12) == payload.len()
            &&& msg.skip(HEADER_LEN as int) == payload
        }),
{
    let msg = header_bytes(device, command, payload.len() as int) + payload;
    let d = bytes32(device as int);
    let c = bytes32(command as int);
    let n = bytes32(payload.len() as int);
    assert(msg.take(4) =~= magic());
    assert(msg =~= magic() + d + (c + n + payload));
    u32_reads_back(magic(), device as int, c + n + payload);
    assert(msg =~= (magic() + d) + c + (n + payload));
    u32_reads_back(magic() + d, command as int, n + payload);
    assert(msg =~= (magic() + d + c) + n + payload);
    u32_reads_back(magic() + d + c, payload.len() as int, payload);
    assert(msg.skip(HEADER_LEN as int) =~= payload);
}

/// Numbers go out low byte first, and come in so.
pub proof fn numbers_are_little_endian(v: int, b: Seq<u8>, p: int)
    ensures
        0 <= v < 0x1_0000 ==> bytes16(v).len() == 2 && bytes16(v)[0] + 0x100 * bytes16(v)[1] == v,
        0 <= v < 0x1_0000_0000 ==> bytes32(v).len() == 4 && bytes32(v)[0] + 0x100 * bytes32(v)[1]
            + 0x1_0000 * bytes32(v)[2] + 0x100_0000 * bytes32(v)[3] == v,
        0 <= p && p + 2 <= b.len() ==> le16(b, p) == b[p] + 0x100 * b[p + 1],
        0 <= p && p + 4 <= b.len() ==> le32(b, p) == b[p] + 0x100 * b[p + 1] + 0x1_0000 * b[p + 2]
            + 0x100_0000 * b[p + 3],
{
    reveal(le16);
    reveal(le32);
}

/// A header starts with the four letters of the protocol, then holds the device,
/// the command and the size in this order.
pub proof fn headers_hold_device_command_size(device: u32, command: u32, size: int)
    requires
        0 <= size < 0x1_0000_0000,
    ensures
        ({
            let h = header_bytes(device, command, size);
            &&& h.len() == 16
            &&& h[0] as char == 'O' && h[1] as char == 'R' && h[2] as char == 'G' && h[3] as char
                == 'B'
            &&& le32(h, 4) == device
            &&& le32(h, 8) == command
            &&& le32(h, 12) == size
        }),
{
    let h = header_bytes(device, command, size);
    let d = bytes32(device as int);
    let c = bytes32(command as int);
    let n = bytes32(size);
    let none = Seq::<u8>::empty();
    assert(h =~= magic() + d + (c + n));
    u32_reads_back(magic(), device as int, c + n);
    assert(h =~= (magic() + d) + c + n);
    u32_reads_back(magic() + d, command as int, n);
    assert(h =~= (magic() + d + c) + n + none);
    u32_reads_back(magic() + d + c, size, none);
}

/// Every LED's color stands in its own place: four bytes a LED, red first. A LED
/// past the end of the colors shows the last of them, and black where there are
/// none.
proof fn led_colors_stand_in_place(colors: Seq<Rgb>, n: nat, i: int)
    requires
        0 <= i < n,
    ensures
        leds_bytes(colors, n).len() == 4 * n,
        ({
            let c = if i < colors.len() {
                colors[i]
            } else if colors.len() > 0 {
                colors[colors.len() - 1]
            } else {
                Rgb(0, 0, 0)
            };
            let b = leds_bytes(colors, n);
            b[4 * i] == c.0 && b[4 * i + 1] == c.1 && b[4 * i + 2] == c.2 && b[4 * i + 3] == 0
        }),
    decreases n,
{
    leds_bytes_len(colors, n);
    leds_bytes_len(colors, (n - 1) as nat);
    if i < n - 1 {
        led_colors_stand_in_place(colors, (n - 1) as nat, i);
    }
}

/// A payload that sets every LED announces its own length and the LED count, and
/// holds each LED's color in its own place. A LED past the end of the colors
/// shows the last of them, and black where there are none.
pub proof fn led_payloads_hold_each_color(led_count: u16, colors: Seq<Rgb>, i: int)
    requires
        0 <= i < led_count,
    ensures
        ({
            let b = update_leds_bytes(led_count, colors);
            let c = if i < colors.len() {
                colors[i]
            } else if colors.len() > 0 {
                colors[colors.len() - 1]
            } else {
                Rgb(0, 0, 0)
            };
            &&& b.len() == 6 + 4 * led_count
            &&& le32(b, 0) == b.len()
            &&& le16(b, 4) == led_count
            &&& b[6 + 4 * i] == c.0
            &&& b[7 + 4 * i] == c.1
            &&& b[8 + 4 * i] == c.2
        }),
{
    let b = update_leds_bytes(led_count, colors);
    let none = Seq::<u8>::empty();
    let size = bytes32(6 + 4 * led_count);
    let count = bytes16(led_count as int);
    let leds = leds_bytes(colors, led_count as nat);
    led_colors_stand_in_place(colors, led_count as nat, i);
    assert(b =~= none + size + (count + leds));
    u32_reads_back(none, 6 + 4 * led_count, count + leds);
    assert(b =~= size + count + leds);
    u16_reads_back(size, led_count as int, leds);
    assert(b[6 + 4 * i] == leds[4 * i]);
    assert(b[7 + 4 * i] == leds[4 * i + 1]);
    assert(b[8 + 4 * i] == leds[4 * i + 2]);
}

/// Four parts, one after the other.
proof fn parts_stand_in_order(a: Seq<u8>, b: Seq<u8>, c: Seq<u8>, d: Seq<u8>, k: int)
    ensures
        a + b + c + d == Seq::<u8>::empty() + a + (b + c + d),
        a + b + c + d == a + b + (c + d),
        0 <= k < d.len() ==> (a + b + c + d)[a.len() + b.len() + c.len() + k] == d[k],
{
    assert(a + b + c + d =~= Seq::<u8>::empty() + a + (b + c + d));
    assert(a + b + c + d =~= a + b + (c + d));
}

/// A payload that sets one zone announces its own length, the zone and the LED
/// count, and holds each LED's color in its own place.
pub proof fn zone_payloads_hold_each_color(zone: u32, count: u16, colors: Seq<Rgb>, i: int)
    requires
        0 <= i < count,
    ensures
        ({
            let b = update_zone_bytes(zone as int, count as u32, colors);
            let c = if i < colors.len() {
                colors[i]
            } else if colors.len() > 0 {
                colors[colors.len() - 1]
            } else {
                Rgb(0, 0, 0)
            };
            &&& b.len() == 10 + 4 * count
            &&& le32(b, 0) == b.len()
            &&& le32(b, 4) == zone
            &&& le16(b, 8) == count
            &&& b[10 + 4 * i] == c.0
            &&& b[11 + 4 * i] == c.1
            &&& b[12 + 4 * i] == c.2
        }),
{
    let b = update_zone_bytes(zone as int, count as u32, colors);
    let size = bytes32(10 + 4 * count);
    let which = bytes32(zone as int);
    let n = bytes16(count as int);
    let leds = leds_bytes(colors, count as nat);
    assert((10 + 4 * count) % 0x1_0000_0000 == 10 + 4 * count);
    assert(zone as int % 0x1_0000_0000 == zone);
    assert(count as u32 % 0x1_0000 == count);
    assert(b == size + which + n + leds);
    led_colors_stand_in_place(colors, count as nat, i);
    parts_stand_in_order(size, which, n, leds, 4 * i);
    parts_stand_in_order(size, which, n, leds, 4 * i + 1);
    parts_stand_in_order(size, which, n, leds, 4 * i + 2);
    u32_reads_back(Seq::empty(), 10 + 4 * count, which + n + leds);
    u32_reads_back(size, zone as int, n + leds);
    u16_reads_back(size + which, count as int, leds);
}

/// A payload that sets a mode announces its own length and the mode's index, and
/// what follows reads back as that mode.
pub proof fn mode_payloads_read_back(m: Mode)
    requires
        encode_utf8(m.name@).len() + 1 < 0x1_0000,
        m.colors@.len() < 0x1_0000,
        8 + mode_bytes(m).len() < 0x1_0000_0000,
    ensures
        ({
            let b = mode_payload_bytes(m);
            &&& le32(b, 0) == b.len()
            &&& le32(b, 4) == m.index
            &&& mode_at(m, m.index as int, b, 8)
        }),
{
    let b = mode_payload_bytes(m);
    let none = Seq::<u8>::empty();
    let size = bytes32((8 + mode_bytes(m).len()) as int);
    let which = bytes32(m.index as int);
    assert(b =~= none + size + (which + mode_bytes(m)));
    u32_reads_back(none, (8 + mode_bytes(m).len()) as int, which + mode_bytes(m));
    assert(b =~= size + which + mode_bytes(m));
    u32_reads_back(size, m.index as int, mode_bytes(m));
    assert(b =~= (size + which) + mode_bytes(m) + none);
    mode_reads_back(size + which, m, none);
}

/// A mode record holds, behind the name, the value, the flags, the ranges of
/// speed, brightness and colors, and then what the mode is set to.
pub proof fn mode_records_are_in_order(m: Mode, i: int, b: Seq<u8>, p: int, j: int)
    requires
        mode_at(m, i, b, p),
    ensures
        ({
            let s = p + 2 + le16(b, p);
            &&& m.index == i
            &&& m.value == (if le32(b, s) < 0x8000_0000 {
                le32(b, s)
            } else {
                le32(b, s) - 0x1_0000_0000
            })
            &&& m.flags == le32(b, s + 4)
            &&& m.speed_min == le32(b, s + 8) && m.speed_max == le32(b, s + 12)
            &&& m.brightness_min == le32(b, s + 16) && m.brightness_max == le32(b, s + 20)
            &&& m.colors_min == le32(b, s + 24) && m.colors_max == le32(b, s + 28)
            &&& m.speed == le32(b, s + 32)
            &&& m.brightness == le32(b, s + 36)
            &&& m.direction == le32(b, s + 40)
            &&& m.color_mode == le32(b, s + 44)
            &&& m.colors@.len() == le16(b, s + 48)
            &&& 0 <= j < m.colors@.len() ==> m.colors@[j] == le32(b, s + 50 + 4 * j)
        }),
{
}

/// A mode can be kept exactly where one of its two save flags is set, and takes a
/// save of its own exactly where the manual one is.
pub proof fn save_flags_decide(m: Mode)
    ensures
        m.savable() <==> m.flags & 0x100 != 0 || m.flags & 0x200 != 0,
        m.saves_on_request() <==> m.flags & 0x100 != 0,
{
    let f = m.flags;
    assert(f & (0x100u32 | 0x200u32) != 0 <==> f & 0x100u32 != 0 || f & 0x200u32 != 0)
        by (bit_vector);
}

/// A copy of a mode is the mode, field by field.
pub proof fn copies_are_equal_modes(a: Mode, b: Mode)
    ensures
        a.same_as(b) ==> a.index == b.index && a.name@ == b.name@ && a.value == b.value && a.flags
            == b.flags && a.speed_min == b.speed_min && a.speed_max == b.speed_max
            && a.brightness_min == b.brightness_min && a.brightness_max == b.brightness_max
            && a.colors_min == b.colors_min && a.colors_max == b.colors_max && a.speed == b.speed
            && a.brightness == b.brightness && a.direction == b.direction && a.color_mode
            == b.color_mode && a.colors@ == b.colors@,
{
}

/// Keeping a mode takes nothing where it cannot be kept; otherwise the update
/// comes first, and a save follows it exactly where one has to be asked for.
pub proof fn saves_follow_the_update(m: &Mode, r: Vec<u32>)
    requires
        call_ensures(save_commands, (m,), r),
    ensures
        r@.len() == 0 <==> !m.savable(),
        r@.len() > 0 ==> r@[0] == 1100,
        r@.len() > 1 <==> m.savable() && m.saves_on_request(),
        r@.len() > 1 ==> r@.len() == 2 && r@[1] == 1101,
{
}

} // verus!

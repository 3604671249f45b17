//! Keyboard lighting over the laptop's gaming WMI class: the packets it speaks
//! and the reports that write experiments leave behind.

use vstd::prelude::*;

use crate::text::{
    contains_text, decimal, hex_padded, hexadecimal, joined_texts_contain_their_parts, occurs_at,
    push_decimal, push_hex, push_hex_padded, push_spaced_hex, spaced_hex,
};

verus! {

/// Width of the packet that the LED and keyboard getters answer with.
pub const PACKET_LEN: usize = 15;

/// A raw, undecoded reading from one of the array methods: the bytes exactly as
/// firmware returned them.
#[derive(PartialEq, Eq)]
pub struct RawPacket {
    bytes: Vec<u8>,
    /// The method's status; zero for every live packet.
    pub status: u8,
}

impl RawPacket {
    pub closed spec fn content(self) -> Seq<u8> {
        self.bytes@
    }

    pub closed spec fn answered(self) -> u8 {
        self.status
    }

    pub fn bytes(&self) -> (r: &[u8])
        ensures
            r@ == self.content(),
    {
        self.bytes.as_slice()
    }

    /// The bytes as two-digit hexadecimal groups.
    pub fn hex(&self) -> (r: String)
        ensures
            r@ == spaced_hex(self.content()),
    {
        let mut out = String::new();
        push_spaced_hex(&mut out, self.bytes.as_slice());
        assert(out@ =~= spaced_hex(self.content()));
        out
    }

    /// The packet and its status in one line.
    pub fn describe(&self) -> (r: String)
        ensures
            r@ == "RawPacket["@ + spaced_hex(self.content()) + "] status="@ + decimal(
                self.answered() as nat,
            ),
    {
        let mut out = String::new();
        out.append("RawPacket[");
        push_spaced_hex(&mut out, self.bytes.as_slice());
        out.append("] status=");
        push_decimal(&mut out, self.status as u128);
        assert(out@ =~= "RawPacket["@ + spaced_hex(self.content()) + "] status="@ + decimal(
            self.answered() as nat,
        ));
        out
    }
}

impl Clone for RawPacket {
    fn clone(&self) -> (r: Self)
        ensures
            r.content() == self.content(),
            r.answered() == self.answered(),
    {
        RawPacket { bytes: self.bytes.clone(), status: self.status }
    }
}

/// The two array-method families worth reading, named by what they drive.
#[derive(Clone, Copy, Debug, PartialEq, Eq, Structural)]
pub enum Surface {
    /// Four-zone keyboard backlight.
    Keyboard,
    /// The lid's shield logo.
    LidShield,
}

impl Surface {
    pub open spec fn method(self) -> Seq<char> {
        match self {
            Surface::Keyboard => "GetGamingKBBacklight"@,
            Surface::LidShield => "GetGamingLED"@,
        }
    }

    /// The method that reads this surface.
    pub fn getter(self) -> (r: &'static str)
        ensures
            r@ == self.method(),
    {
        match self {
            Surface::Keyboard => "GetGamingKBBacklight",
            Surface::LidShield => "GetGamingLED",
        }
    }
}

/// What one selector of a surface answered: a packet where the status says that
/// the selector is live, nothing where it addressed nothing.
pub fn live_packet(bytes: Vec<u8>, status: u8) -> (r: Option<RawPacket>)
    ensures
        match r {
            Some(p) => status == 0 && p.content() == bytes@ && p.answered() == 0,
            None => status != 0,
        },
{
    if status == 0 {
        Some(RawPacket { bytes, status })
    } else {
        None
    }
}

/// What one selector of a sweep answered.
pub struct Reading {
    pub selector: u32,
    pub bytes: Vec<u8>,
    pub status: u8,
}

/// The live readings of a sweep, in order.
pub open spec fn live_readings(s: Seq<Reading>) -> Seq<Reading> {
    s.filter(|r: Reading| r.status == 0)
}

/// Keeps the live readings of a sweep, each tagged by its selector.
pub fn live_packets(readings: Vec<Reading>) -> (r: Vec<(u32, RawPacket)>)
    ensures
        r@.len() == live_readings(readings@).len(),
        forall|i: int|
            0 <= i < r@.len() ==> {
                &&& (#[trigger] r@[i]).0 == live_readings(readings@)[i].selector
                &&& r@[i].1.content() == live_readings(readings@)[i].bytes@
                &&& r@[i].1.answered() == 0
            },
{
    let ghost all = readings@;
    let mut rest = readings;
    let mut out: Vec<(u32, RawPacket)> = Vec::new();
    let n: usize = rest.len();
    let mut i: usize = 0;
    proof {
        assert(all.take(0) =~= Seq::<Reading>::empty());
        assert(live_readings(all.take(0)) =~= Seq::<Reading>::empty()) by {
            reveal(Seq::filter);
        }
    }
    while i < n
        invariant
            n == all.len(),
            i <= n,
            rest@ == all.skip(i as int),
            out@.len() == live_readings(all.take(i as int)).len(),
            forall|k: int|
                0 <= k < out@.len() ==> {
                    &&& (#[trigger] out@[k]).0 == live_readings(all.take(i as int))[k].selector
                    &&& out@[k].1.content() == live_readings(all.take(i as int))[k].bytes@
                    &&& out@[k].1.answered() == 0
                },
        decreases n - i,
    {
        let reading = rest.remove(0);
        proof {
            assert(rest@ =~= all.skip(i + 1));
            let next = all.take(i + 1);
            assert(next.drop_last() =~= all.take(i as int));
            assert(next.last() == reading);
            reveal(Seq::filter);
            assert(live_readings(next) == if reading.status == 0 {
                live_readings(all.take(i as int)).push(reading)
            } else {
                live_readings(all.take(i as int))
            });
        }
        if let Some(packet) = live_packet(reading.bytes, reading.status) {
            out.push((reading.selector, packet));
        }
        i += 1;
    }
    assert(all.take(n as int) =~= all);
    out
}

/// An RGB triple. Byte order in payloads is R, G, B.
#[derive(Clone, Copy, Debug, PartialEq, Eq, Structural)]
pub struct Rgb(pub u8, pub u8, pub u8);

impl Rgb {
    /// The triple in words, as it appears in signatures.
    pub open spec fn text(self) -> Seq<char> {
        "Rgb("@ + decimal(self.0 as nat) + ", "@ + decimal(self.1 as nat) + ", "@ + decimal(
            self.2 as nat,
        ) + ")"@
    }

    /// Appends the triple in words.
    pub fn push_text(self, out: &mut String)
        ensures
            final(out)@ == old(out)@ + self.text(),
    {
        out.append("Rgb(");
        push_decimal(out, self.0 as u128);
        out.append(", ");
        push_decimal(out, self.1 as u128);
        out.append(", ");
        push_decimal(out, self.2 as u128);
        out.append(")");
        assert(out@ =~= old(out)@ + self.text());
    }
}

/// The four keyboard zones, left to right.
#[derive(Clone, Copy, Debug, PartialEq, Eq, Structural)]
pub enum Zone {
    One,
    Two,
    Three,
    Four,
}

impl Zone {
    pub open spec fn mask(self) -> u8 {
        match self {
            Zone::One => 0x01,
            Zone::Two => 0x02,
            Zone::Three => 0x04,
            Zone::Four => 0x08,
        }
    }

    /// The zone's bit in a zone mask.
    pub fn bit(self) -> (r: u8)
        ensures
            r == self.mask(),
    {
        match self {
            Zone::One => 0x01,
            Zone::Two => 0x02,
            Zone::Three => 0x04,
            Zone::Four => 0x08,
        }
    }
}

/// All four zones at once.
pub const ALL_ZONES: u8 = 0x0F;

/// The zone mask of all zones is the four zone bits together.
pub proof fn all_zones_is_every_zone()
    ensures
        ALL_ZONES == Zone::One.mask() + Zone::Two.mask() + Zone::Three.mask() + Zone::Four.mask(),
{
}

/// Keyboard lighting effects.
#[derive(Clone, Copy, Debug, PartialEq, Eq, Structural)]
pub enum Effect {
    Static,
    Breath,
    Neon,
    Wave,
    Shifting,
    Zoom,
}

impl Effect {
    pub open spec fn mode(self) -> u8 {
        match self {
            Effect::Static => 0,
            Effect::Breath => 1,
            Effect::Neon => 2,
            Effect::Wave => 3,
            Effect::Shifting => 4,
            Effect::Zoom => 5,
        }
    }

    /// The firmware's mode byte.
    pub fn code(self) -> (r: u8)
        ensures
            r == self.mode(),
    {
        match self {
            Effect::Static => 0,
            Effect::Breath => 1,
            Effect::Neon => 2,
            Effect::Wave => 3,
            Effect::Shifting => 4,
            Effect::Zoom => 5,
        }
    }
}

/// The four-byte per-zone static packet: the zone mask, then the color.
pub fn static_zone_payload(zones: u8, color: Rgb) -> (r: [u8; 4])
    ensures
        r@ == seq![zones, color.0, color.1, color.2],
{
    [zones, color.0, color.1, color.2]
}

/// A brightness in percent.
pub open spec fn percent(v: u8) -> u8 {
    if v > 100 {
        100
    } else {
        v
    }
}

/// A direction, 1 or 2.
pub open spec fn one_or_two(v: u8) -> u8 {
    if v < 1 {
        1
    } else if v > 2 {
        2
    } else {
        v
    }
}

/// The 16-byte effect packet:
/// `[mode, speed, brightness, 0, direction, R, G, B, 0, 1, 0, 0, 0, 0, 0, 0]`.
/// Byte 9 is the enable flag, without which firmware rejects the packet.
pub fn effect_payload(effect: Effect, speed: u8, brightness: u8, direction: u8, color: Rgb) -> (r:
    [u8; 16])
    ensures
        r@ == seq![
            effect.mode(),
            speed,
            percent(brightness),
            0,
            one_or_two(direction),
            color.0,
            color.1,
            color.2,
            0,
            1,
            0,
            0,
            0,
            0,
            0,
            0,
        ],
{
    let bright: u8 = if brightness > 100 {
        100
    } else {
        brightness
    };
    let dir: u8 = if direction < 1 {
        1
    } else if direction > 2 {
        2
    } else {
        direction
    };
    [
        effect.code(),
        speed,
        bright,
        0,
        dir,
        color.0,
        color.1,
        color.2,
        0,
        1,
        0,
        0,
        0,
        0,
        0,
        0,
    ]
}

/// The per-zone color word: `zone | R << 8 | G << 16 | B << 24`.
pub fn rgbkb_packed(zone_bit: u8, c: Rgb) -> (r: u64)
    ensures
        r == zone_bit + 0x100 * c.0 + 0x1_0000 * c.1 + 0x100_0000 * c.2,
{
    zone_bit as u64 + 0x100 * (c.0 as u64) + 0x1_0000 * (c.1 as u64) + 0x100_0000 * (c.2 as u64)
}

/// The LED color word: `sel | R << 8 | G << 16 | B << 24 | brightness << 32 |
/// speed << 40`, the brightness in percent.
pub fn ledcolor_packed(selector: u8, c: Rgb, brightness: u8, speed: u8) -> (r: u64)
    ensures
        r == selector + 0x100 * c.0 + 0x1_0000 * c.1 + 0x100_0000 * c.2 + 0x1_0000_0000 * percent(
            brightness,
        ) + 0x100_0000_0000 * speed,
{
    let bright: u8 = if brightness > 100 {
        100
    } else {
        brightness
    };
    selector as u64 + 0x100 * (c.0 as u64) + 0x1_0000 * (c.1 as u64) + 0x100_0000 * (c.2 as u64)
        + 0x1_0000_0000 * (bright as u64) + 0x100_0000_0000 * (speed as u64)
}

// ---------------------------------------------------------------- reports

/// How a single write experiment ended.
pub enum Outcome {
    /// The method answered with this status word.
    Status(u64),
    WriteFailed(String),
    ConnectFailed(String),
}

pub open spec fn outcome_text(o: Outcome) -> Seq<char> {
    match o {
        Outcome::Status(s) => "result: OK  gmOutput=0x"@ + hexadecimal(s as nat)
            + "\nwatch the hardware — then note what actually happened.\n"@,
        Outcome::WriteFailed(e) => "result: WRITE FAILED  "@ + e@ + "\n"@,
        Outcome::ConnectFailed(e) => "result: CONNECT FAILED  "@ + e@ + "\n(elevated?)\n"@,
    }
}

/// The report of one write: when, what, the bytes and how it ended.
pub open spec fn report_text(
    epoch: u64,
    label: Seq<char>,
    method: Seq<char>,
    payload: Seq<u8>,
    o: Outcome,
) -> Seq<char> {
    "colormemuch write report — epoch "@ + decimal(epoch as nat) + "\nlabel:  "@ + label
        + "\nmethod: "@ + method + "\npayload: ["@ + spaced_hex(payload) + "] ("@ + decimal(
        payload.len(),
    ) + " bytes)\n\n"@ + outcome_text(o)
}

/// Writes the report of one write experiment.
pub fn write_report(epoch: u64, label: &str, method: &str, payload: &[u8], outcome: &Outcome) -> (r:
    String)
    ensures
        r@ == report_text(epoch, label@, method@, payload@, *outcome),
{
    let mut out = String::new();
    out.append("colormemuch write report — epoch ");
    push_decimal(&mut out, epoch as u128);
    out.append("\nlabel:  ");
    out.append(label);
    out.append("\nmethod: ");
    out.append(method);
    out.append("\npayload: [");
    push_spaced_hex(&mut out, payload);
    out.append("] (");
    push_decimal(&mut out, payload.len() as u128);
    out.append(" bytes)\n\n");
    match outcome {
        Outcome::Status(status) => {
            out.append("result: OK  gmOutput=0x");
            push_hex(&mut out, *status);
            out.append("\nwatch the hardware — then note what actually happened.\n");
        },
        Outcome::WriteFailed(e) => {
            out.append("result: WRITE FAILED  ");
            out.append(e.as_str());
            out.append("\n");
        },
        Outcome::ConnectFailed(e) => {
            out.append("result: CONNECT FAILED  ");
            out.append(e.as_str());
            out.append("\n(elevated?)\n");
        },
    }
    assert(out@ =~= report_text(epoch, label@, method@, payload@, *outcome));
    out
}

/// One write of a matrix: which method, what payload, and how long to hold
/// before the next shot.
pub struct Shot {
    pub label: String,
    pub method: String,
    pub payload: Payload,
    pub pause_ms: u64,
}

/// The interface's two parameter shapes.
pub enum Payload {
    Bytes(Vec<u8>),
    Packed(u64),
}

pub open spec fn shot_text(i: nat, shot: Shot) -> Seq<char> {
    "["@ + decimal(i) + "] "@ + shot.label@ + "\n    "@ + shot.method@ + match shot.payload {
        Payload::Bytes(b) => " <- ["@ + spaced_hex(b@) + "] ("@ + decimal(b@.len()) + " bytes)\n"@,
        Payload::Packed(v) => " <- 0x"@ + hex_padded(v as nat, 16) + "\n"@,
    }
}

pub open spec fn shot_result_text(r: Result<u64, String>) -> Seq<char> {
    match r {
        Ok(status) => "    gmOutput = 0x"@ + hexadecimal(status as nat) + "\n\n"@,
        Err(e) => "    ERROR: "@ + e@ + "\n\n"@,
    }
}

/// What the first `n` shots put into the report.
pub open spec fn shots_text(shots: Seq<Shot>, results: Seq<Result<u64, String>>, n: nat) -> Seq<
    char,
>
    decreases n,
{
    if n == 0 {
        Seq::empty()
    } else {
        shots_text(shots, results, (n - 1) as nat) + shot_text((n - 1) as nat, shots[n - 1])
            + shot_result_text(results[n - 1])
    }
}

pub open spec fn matrix_head(epoch: u64, shots: nat) -> Seq<char> {
    "colormemuch write matrix — epoch "@ + decimal(epoch as nat) + "\n"@ + decimal(shots)
        + " shots. gmOutput: 0x0 = accepted, 0x1 = rejected.\n\n"@
}

fn push_matrix_head(out: &mut String, epoch: u64, shots: usize)
    ensures
        final(out)@ == old(out)@ + matrix_head(epoch, shots as nat),
{
    out.append("colormemuch write matrix — epoch ");
    push_decimal(out, epoch as u128);
    out.append("\n");
    push_decimal(out, shots as u128);
    out.append(" shots. gmOutput: 0x0 = accepted, 0x1 = rejected.\n\n");
    assert(out@ =~= old(out)@ + matrix_head(epoch, shots as nat));
}

fn push_shot(out: &mut String, i: usize, shot: &Shot)
    ensures
        final(out)@ == old(out)@ + shot_text(i as nat, *shot),
{
    out.append("[");
    push_decimal(out, i as u128);
    out.append("] ");
    out.append(shot.label.as_str());
    out.append("\n    ");
    out.append(shot.method.as_str());
    match &shot.payload {
        Payload::Bytes(b) => {
            out.append(" <- [");
            push_spaced_hex(out, b.as_slice());
            out.append("] (");
            push_decimal(out, b.len() as u128);
            out.append(" bytes)\n");
        },
        Payload::Packed(v) => {
            out.append(" <- 0x");
            push_hex_padded(out, *v, 16);
            out.append("\n");
        },
    }
    assert(out@ =~= old(out)@ + shot_text(i as nat, *shot));
}

fn push_shot_result(out: &mut String, result: &Result<u64, String>)
    ensures
        final(out)@ == old(out)@ + shot_result_text(*result),
{
    match result {
        Ok(status) => {
            out.append("    gmOutput = 0x");
            push_hex(out, *status);
            out.append("\n\n");
        },
        Err(e) => {
            out.append("    ERROR: ");
            out.append(e.as_str());
            out.append("\n\n");
        },
    }
    assert(out@ =~= old(out)@ + shot_result_text(*result));
}

/// The report of a matrix of writes made in one session, one result a shot.
pub fn matrix_report(epoch: u64, shots: &[Shot], results: &[Result<u64, String>]) -> (r: String)
    requires
        results@.len() == shots@.len(),
    ensures
        r@ == matrix_head(epoch, shots@.len()) + shots_text(shots@, results@, shots@.len())
            + "done.\n"@,
{
    let mut out = String::new();
    push_matrix_head(&mut out, epoch, shots.len());
    let ghost head = matrix_head(epoch, shots@.len());
    let mut i: usize = 0;
    assert(out@ =~= head + shots_text(shots@, results@, 0));
    while i < shots.len()
        invariant
            i <= shots@.len(),
            results@.len() == shots@.len(),
            out@ == head + shots_text(shots@, results@, i as nat),
        decreases shots@.len() - i,
    {
        push_shot(&mut out, i, &shots[i]);
        push_shot_result(&mut out, &results[i]);
        assert(out@ =~= head + shots_text(shots@, results@, (i + 1) as nat));
        i += 1;
    }
    out.append("done.\n");
    out
}

/// The report of a matrix that could not be fired.
pub fn matrix_connect_failure(epoch: u64, shots: &[Shot], error: &str) -> (r: String)
    ensures
        r@ == matrix_head(epoch, shots@.len()) + "CONNECT FAILED  "@ + error@ + "\n(elevated?)\n"@,
{
    let mut out = String::new();
    push_matrix_head(&mut out, epoch, shots.len());
    out.append("CONNECT FAILED  ");
    out.append(error);
    out.append("\n(elevated?)\n");
    assert(out@ =~= matrix_head(epoch, shots@.len()) + "CONNECT FAILED  "@ + error@
        + "\n(elevated?)\n"@);
    out
}

/// The file name of a report made at `epoch`.
pub fn report_name(prefix: &str, epoch: u64) -> (r: String)
    ensures
        r@ == prefix@ + "-"@ + decimal(epoch as nat) + ".txt"@,
{
    let mut out = String::new();
    out.append(prefix);
    out.append("-");
    push_decimal(&mut out, epoch as u128);
    out.append(".txt");
    assert(out@ =~= prefix@ + "-"@ + decimal(epoch as nat) + ".txt"@);
    out
}

/// Each zone has a bit of its own, from the lowest on left to right.
pub proof fn zone_bits_go_left_to_right(a: Zone, b: Zone)
    ensures
        Zone::One.mask() == 1,
        Zone::Two.mask() == 2 * Zone::One.mask(),
        Zone::Three.mask() == 2 * Zone::Two.mask(),
        Zone::Four.mask() == 2 * Zone::Three.mask(),
        a.mask() == b.mask() ==> a == b,
{
}

/// The firmware's mode bytes count the effects from zero on.
pub proof fn effect_modes_count_up(a: Effect, b: Effect)
    ensures
        Effect::Static.mode() == 0,
        Effect::Breath.mode() == Effect::Static.mode() + 1,
        Effect::Neon.mode() == Effect::Breath.mode() + 1,
        Effect::Wave.mode() == Effect::Neon.mode() + 1,
        Effect::Shifting.mode() == Effect::Wave.mode() + 1,
        Effect::Zoom.mode() == Effect::Shifting.mode() + 1,
        a.mode() == b.mode() ==> a == b,
{
}

/// A brightness up to a hundred and a direction of one or two go out as asked for;
/// anything else moves to the nearest that can.
pub proof fn packets_carry_what_was_asked(v: u8)
    ensures
        v <= 100 ==> percent(v) == v,
        v > 100 ==> percent(v) == 100,
        v == 1 || v == 2 ==> one_or_two(v) == v,
        v == 0 ==> one_or_two(v) == 1,
        v > 2 ==> one_or_two(v) == 2,
{
}

/// A sweep keeps exactly the readings whose status is zero.
pub proof fn sweeps_keep_live_readings(s: Seq<Reading>, one: Reading)
    ensures
        live_readings(s).contains(one) <==> s.contains(one) && one.status == 0,
    decreases s.len(),
{
    reveal(Seq::filter);
    if s.len() > 0 {
        let init = s.drop_last();
        let last = s.last();
        sweeps_keep_live_readings(init, one);
        let kept = live_readings(init);
        assert(live_readings(s) == if last.status == 0 {
            kept.push(last)
        } else {
            kept
        });
        assert(s =~= init.push(last));
        one_more_reading(init, last, one);
        one_more_reading(kept, last, one);
    }
}

proof fn one_more_reading(s: Seq<Reading>, last: Reading, one: Reading)
    ensures
        s.push(last).contains(one) <==> s.contains(one) || last == one,
{
    let t = s.push(last);
    assert(t[s.len() as int] == last);
    if s.contains(one) {
        let i = choose|i: int| 0 <= i < s.len() && s[i] == one;
        assert(t[i] == one);
    }
    if t.contains(one) {
        let i = choose|i: int| 0 <= i < t.len() && t[i] == one;
        if i < s.len() {
            assert(s[i] == one);
        }
    }
}

/// Each surface is read by its own method.
pub proof fn surfaces_have_their_own_method(a: Surface, b: Surface)
    ensures
        a.method() == b.method() ==> a == b,
{
    reveal_strlit("GetGamingKBBacklight");
    reveal_strlit("GetGamingLED");
    if a.method() == b.method() {
        assert(a.method().len() == b.method().len());
    }
}

/// A report holds what was written and how it ended: its label, its method, its
/// bytes in hexadecimal, and the status or the error.
pub proof fn reports_hold_what_happened(
    epoch: u64,
    label: Seq<char>,
    method: Seq<char>,
    payload: Seq<u8>,
    o: Outcome,
)
    ensures
        ({
            let t = report_text(epoch, label, method, payload, o);
            &&& contains_text(t, label)
            &&& contains_text(t, method)
            &&& contains_text(t, spaced_hex(payload))
            &&& contains_text(t, decimal(epoch as nat))
            &&& match o {
                Outcome::Status(s) => contains_text(t, "0x"@ + hexadecimal(s as nat)),
                Outcome::WriteFailed(e) => contains_text(t, e@),
                Outcome::ConnectFailed(e) => contains_text(t, e@),
            }
        }),
{
    let t = report_text(epoch, label, method, payload, o);
    let h0 = "colormemuch write report — epoch "@;
    let h1 = h0 + decimal(epoch as nat) + "\nlabel:  "@;
    let h2 = h1 + label + "\nmethod: "@;
    let h3 = h2 + method + "\npayload: ["@;
    let h4 = h3 + spaced_hex(payload) + "] ("@ + decimal(payload.len()) + " bytes)\n\n"@;
    let end = outcome_text(o);
    assert(t =~= h4 + end);
    let r3 = "] ("@ + decimal(payload.len()) + " bytes)\n\n"@ + end;
    assert(t =~= h3 + spaced_hex(payload) + r3);
    joined_texts_contain_their_parts(h3, spaced_hex(payload), r3);
    let r2 = "\npayload: ["@ + spaced_hex(payload) + r3;
    assert(t =~= h2 + method + r2);
    joined_texts_contain_their_parts(h2, method, r2);
    let r1 = "\nmethod: "@ + method + r2;
    assert(t =~= h1 + label + r1);
    joined_texts_contain_their_parts(h1, label, r1);
    let r0 = "\nlabel:  "@ + label + r1;
    assert(t =~= h0 + decimal(epoch as nat) + r0);
    joined_texts_contain_their_parts(h0, decimal(epoch as nat), r0);
    match o {
        Outcome::Status(s) => {
            reveal_strlit("result: OK  gmOutput=0x");
            reveal_strlit("0x");
            reveal_strlit("result: OK  gmOutput=");
            let a = "result: OK  gmOutput="@;
            let b = "0x"@ + hexadecimal(s as nat);
            let c = "\nwatch the hardware — then note what actually happened.\n"@;
            assert("result: OK  gmOutput=0x"@ =~= a + "0x"@);
            assert(t =~= (h4 + a) + b + c);
            joined_texts_contain_their_parts(h4 + a, b, c);
        },
        Outcome::WriteFailed(e) => {
            let a = "result: WRITE FAILED  "@;
            assert(t =~= (h4 + a) + e@ + "\n"@);
            joined_texts_contain_their_parts(h4 + a, e@, "\n"@);
        },
        Outcome::ConnectFailed(e) => {
            let a = "result: CONNECT FAILED  "@;
            let c = "\n(elevated?)\n"@;
            assert(t =~= (h4 + a) + e@ + c);
            joined_texts_contain_their_parts(h4 + a, e@, c);
        },
    }
}

/// A shot's lines start with its number and hold its label, its method and its
/// payload: bytes and how many there are, or all sixteen digits of a word.
pub proof fn shots_are_reported_in_full(i: nat, shot: Shot)
    ensures
        ({
            let t = shot_text(i, shot);
            &&& occurs_at(t, "["@ + decimal(i) + "] "@ + shot.label@ + "\n"@, 0)
            &&& contains_text(t, shot.method@)
            &&& match shot.payload {
                Payload::Bytes(b) => contains_text(
                    t,
                    "["@ + spaced_hex(b@) + "] ("@ + decimal(b@.len()) + " bytes)"@,
                ),
                Payload::Packed(v) => contains_text(t, "0x"@ + hex_padded(v as nat, 16) + "\n"@),
            }
        }),
{
    let t = shot_text(i, shot);
    let none = Seq::<char>::empty();
    let head = "["@ + decimal(i) + "] "@ + shot.label@;
    let end = match shot.payload {
        Payload::Bytes(b) => " <- ["@ + spaced_hex(b@) + "] ("@ + decimal(b@.len()) + " bytes)\n"@,
        Payload::Packed(v) => " <- 0x"@ + hex_padded(v as nat, 16) + "\n"@,
    };
    reveal_strlit("\n    ");
    reveal_strlit("    ");
    reveal_strlit("\n");
    assert("\n    "@ =~= "\n"@ + "    "@);
    let first = head + "\n"@;
    let front = head + "\n    "@;
    assert(t =~= front + shot.method@ + end);
    joined_texts_contain_their_parts(front, shot.method@, end);
    assert(front =~= first + "    "@);
    assert(t.subrange(0, first.len() as int) =~= first);
    let before = front + shot.method@;
    match shot.payload {
        Payload::Bytes(b) => {
            reveal_strlit(" <- [");
            reveal_strlit(" <- ");
            reveal_strlit("[");
            reveal_strlit(" bytes)\n");
            reveal_strlit(" bytes)");
            assert(" <- ["@ =~= " <- "@ + "["@);
            assert(" bytes)\n"@ =~= " bytes)"@ + "\n"@);
            let body = "["@ + spaced_hex(b@) + "] ("@ + decimal(b@.len()) + " bytes)"@;
            assert(end =~= " <- "@ + body + "\n"@);
            joined_texts_contain_their_parts(before + " <- "@, body, "\n"@);
            assert(t =~= (before + " <- "@) + body + "\n"@);
        },
        Payload::Packed(v) => {
            reveal_strlit(" <- 0x");
            reveal_strlit(" <- ");
            reveal_strlit("0x");
            assert(" <- 0x"@ =~= " <- "@ + "0x"@);
            let body = "0x"@ + hex_padded(v as nat, 16) + "\n"@;
            assert(end =~= " <- "@ + body);
            joined_texts_contain_their_parts(before + " <- "@, body, none);
            assert(t =~= (before + " <- "@) + body + none);
        },
    }
}

/// A matrix report starts with its time and its number of shots.
pub proof fn matrix_reports_count_their_shots(epoch: u64, shots: nat)
    ensures
        contains_text(matrix_head(epoch, shots), decimal(epoch as nat) + "\n"@),
        contains_text(matrix_head(epoch, shots), "\n"@ + decimal(shots) + " shots"@),
{
    reveal_strlit(" shots. gmOutput: 0x0 = accepted, 0x1 = rejected.\n\n");
    reveal_strlit(" shots");
    reveal_strlit(". gmOutput: 0x0 = accepted, 0x1 = rejected.\n\n");
    let h = "colormemuch write matrix — epoch "@;
    let e = ". gmOutput: 0x0 = accepted, 0x1 = rejected.\n\n"@;
    let s = " shots. gmOutput: 0x0 = accepted, 0x1 = rejected.\n\n"@;
    assert(s =~= " shots"@ + e);
    let t = matrix_head(epoch, shots);
    let a = decimal(epoch as nat) + "\n"@;
    assert(t =~= h + a + (decimal(shots) + s));
    joined_texts_contain_their_parts(h, a, decimal(shots) + s);
    let b = "\n"@ + decimal(shots) + " shots"@;
    assert(t =~= (h + decimal(epoch as nat)) + b + e);
    joined_texts_contain_their_parts(h + decimal(epoch as nat), b, e);
}

/// An effect packet byte by byte: the mode, the speed, the brightness in percent,
/// the direction, red, green and blue, and the enable flag; all else is zero.
pub proof fn effect_packets_are_in_order(
    effect: Effect,
    speed: u8,
    brightness: u8,
    direction: u8,
    color: Rgb,
    r: [u8; 16],
    i: int,
)
    requires
        call_ensures(effect_payload, (effect, speed, brightness, direction, color), r),
    ensures
        r@[0] == effect.mode(),
        r@[1] == speed,
        brightness <= 100 ==> r@[2] == brightness,
        brightness > 100 ==> r@[2] == 100,
        1 <= direction <= 2 ==> r@[4] == direction,
        r@[5] == color.0 && r@[6] == color.1 && r@[7] == color.2,
        r@[9] == 1,
        i == 3 || i == 8 || 10 <= i < 16 ==> r@[i] == 0,
{
}

/// The per-zone word byte by byte, low byte first: the zone, red, green, blue.
pub proof fn zone_words_hold_zone_and_color(zone: u8, c: Rgb, r: u64)
    requires
        call_ensures(rgbkb_packed, (zone, c), r),
    ensures
        r % 256 == zone,
        (r / 0x100) % 256 == c.0,
        (r / 0x1_0000) % 256 == c.1,
        r / 0x100_0000 == c.2,
{
    assert(r / 0x100 == c.0 + 0x100 * c.1 + 0x1_0000 * c.2);
    assert(r / 0x1_0000 == c.1 + 0x100 * c.2);
}

/// The LED word byte by byte, low byte first: the selector, red, green, blue, the
/// brightness, the speed.
pub proof fn led_words_hold_selector_and_color(
    selector: u8,
    c: Rgb,
    brightness: u8,
    speed: u8,
    r: u64,
)
    requires
        call_ensures(ledcolor_packed, (selector, c, brightness, speed), r),
    ensures
        r % 256 == selector,
        (r / 0x100) % 256 == c.0,
        (r / 0x1_0000) % 256 == c.1,
        (r / 0x100_0000) % 256 == c.2,
        brightness <= 100 ==> (r / 0x1_0000_0000) % 256 == brightness,
        brightness > 100 ==> (r / 0x1_0000_0000) % 256 == 100,
        r / 0x100_0000_0000 == speed,
{
    let p = percent(brightness);
    assert(r / 0x100 == c.0 + 0x100 * c.1 + 0x1_0000 * c.2 + 0x100_0000 * p + 0x1_0000_0000
        * speed);
    assert(r / 0x1_0000 == c.1 + 0x100 * c.2 + 0x1_0000 * p + 0x100_0000 * speed);
    assert(r / 0x100_0000 == c.2 + 0x100 * p + 0x1_0000 * speed);
    assert(r / 0x1_0000_0000 == p + 0x100 * speed);
}

} // verus!

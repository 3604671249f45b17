//! Reading a controller description.
//!
//! A description is a flat run of little-endian fields. Reading is lenient:
//! whatever lies past the end reads as zero, so a truncated description yields
//! what it holds and nothing more.

use vstd::prelude::*;
use vstd::slice::slice_subrange;
use vstd::utf8::{decode_utf8, valid_utf8};

use crate::openrgb::{Controller, MatrixDesc, Mode, WireError, ZoneDesc};
use crate::rgb::Rgb;

verus! {

// -------------------------------------------------------------- the layout

/// The byte at `p`, or zero past the end.
pub open spec fn byte_at(b: Seq<u8>, p: int) -> int {
    if 0 <= p < b.len() {
        b[p] as int
    } else {
        0
    }
}

/// The little-endian `u16` at `p`.
#[verifier::opaque]
pub open spec fn le16(b: Seq<u8>, p: int) -> int {
    byte_at(b, p) + 0x100 * byte_at(b, p + 1)
}

/// The little-endian `u32` at `p`.
#[verifier::opaque]
pub open spec fn le32(b: Seq<u8>, p: int) -> int {
    byte_at(b, p) + 0x100 * byte_at(b, p + 1) + 0x1_0000 * byte_at(b, p + 2) + 0x100_0000 * byte_at(
        b,
        p + 3,
    )
}

/// A 32-bit pattern read as a two's complement number.
pub open spec fn signed(v: int) -> int {
    if v < 0x8000_0000 {
        v
    } else {
        v - 0x1_0000_0000
    }
}

/// What decoding makes of bytes that are not UTF-8: the outcome of
/// `String::from_utf8_lossy`, which puts U+FFFD in place of invalid sequences.
pub uninterp spec fn utf8_repaired(bytes: Seq<u8>) -> Seq<char>;

/// Bytes as text: decoded where they are UTF-8, repaired where they are not.
pub open spec fn utf8_text(bytes: Seq<u8>) -> Seq<char> {
    if valid_utf8(bytes) {
        decode_utf8(bytes)
    } else {
        utf8_repaired(bytes)
    }
}

/// A byte run without its trailing NUL, if it has one.
pub open spec fn without_nul(raw: Seq<u8>) -> Seq<u8> {
    if raw.len() > 0 && raw.last() == 0 {
        raw.drop_last()
    } else {
        raw
    }
}

pub open spec fn min_int(a: int, b: int) -> int {
    if a <= b {
        a
    } else {
        b
    }
}

/// The bytes of the text record at `p`, as far as the blob holds them.
pub open spec fn raw_text(b: Seq<u8>, p: int) -> Seq<u8> {
    b.subrange(min_int(p + 2, b.len() as int), min_int(p + 2 + le16(b, p), b.len() as int))
}

/// The text record at `p`: a `u16` length, then that many bytes, the last of
/// them a NUL.
pub open spec fn text_at(b: Seq<u8>, p: int) -> Seq<char> {
    utf8_text(without_nul(raw_text(b, p)))
}

/// Where the text record at `p` ends.
pub open spec fn text_end(b: Seq<u8>, p: int) -> int {
    p + 2 + le16(b, p)
}

/// Where `n` text records that start at `p` end.
pub open spec fn texts_end(b: Seq<u8>, p: int, n: nat) -> int
    decreases n,
{
    if n == 0 {
        p
    } else {
        text_end(b, texts_end(b, p, (n - 1) as nat))
    }
}

/// The mode record at `p`, as the `i`-th mode.
pub open spec fn mode_at(m: Mode, i: int, b: Seq<u8>, p: int) -> bool {
    let s = text_end(b, p);
    &&& m.index == i
    &&& m.name@ == text_at(b, p)
    &&& m.value == signed(le32(b, s))
    &&& m.flags == le32(b, s + 4)
    &&& m.speed_min == le32(b, s + 8)
    &&& m.speed_max == le32(b, s + 12)
    &&& m.brightness_min == le32(b, s + 16)
    &&& m.brightness_max == le32(b, s + 20)
    &&& m.colors_min == le32(b, s + 24)
    &&& m.colors_max == le32(b, s + 28)
    &&& m.speed == le32(b, s + 32)
    &&& m.brightness == le32(b, s + 36)
    &&& m.direction == le32(b, s + 40)
    &&& m.color_mode == le32(b, s + 44)
    &&& m.colors@.len() == le16(b, s + 48)
    &&& forall|j: int| 0 <= j < m.colors@.len() ==> #[trigger] m.colors@[j] == le32(b, s + 50 + 4 * j)
}

/// Where the mode record at `p` ends.
pub open spec fn mode_end(b: Seq<u8>, p: int) -> int {
    text_end(b, p) + 50 + 4 * le16(b, text_end(b, p) + 48)
}

/// Where `n` mode records that start at `p` end.
pub open spec fn modes_end(b: Seq<u8>, p: int, n: nat) -> int
    decreases n,
{
    if n == 0 {
        p
    } else {
        mode_end(b, modes_end(b, p, (n - 1) as nat))
    }
}

/// The declared size of the matrix block of the zone record at `p`.
pub open spec fn matrix_len(b: Seq<u8>, p: int) -> int {
    le16(b, text_end(b, p) + 16)
}

/// How many cells the matrix of the zone record at `p` has. A block too short
/// for a height and a width holds no matrix.
pub open spec fn matrix_cells(b: Seq<u8>, p: int) -> int {
    if matrix_len(b, p) >= 8 {
        le32(b, text_end(b, p) + 18) * le32(b, text_end(b, p) + 22)
    } else {
        0
    }
}

/// One matrix cell: an LED index, or a gap.
pub open spec fn cell_of(v: int) -> Option<u32> {
    if v == 0xFFFF_FFFF {
        None
    } else {
        Some(v as u32)
    }
}

/// The LED count of the zone record at `p`.
pub open spec fn zone_leds(b: Seq<u8>, p: int) -> int {
    le32(b, text_end(b, p) + 12)
}

/// The matrix of the zone record at `p`.
pub open spec fn matrix_at(m: Option<MatrixDesc>, b: Seq<u8>, p: int) -> bool {
    let s = text_end(b, p);
    match m {
        None => matrix_len(b, p) < 8,
        Some(d) => {
            &&& matrix_len(b, p) >= 8
            &&& d.height == le32(b, s + 18)
            &&& d.width == le32(b, s + 22)
            &&& d.map@.len() == matrix_cells(b, p)
            &&& forall|k: int|
                0 <= k < d.map@.len() ==> #[trigger] d.map@[k] == cell_of(le32(b, s + 26 + 4 * k))
        },
    }
}

/// The zone record at `p`, as a zone whose LEDs start at `start`.
pub open spec fn zone_at(z: ZoneDesc, start: int, b: Seq<u8>, p: int) -> bool {
    let s = text_end(b, p);
    &&& z.name@ == text_at(b, p)
    &&& z.kind == signed(le32(b, s))
    &&& z.leds_min == le32(b, s + 4)
    &&& z.leds_max == le32(b, s + 8)
    &&& z.leds_count == zone_leds(b, p)
    &&& z.start == start
    &&& matrix_at(z.matrix, b, p)
}

/// Where the zone record at `p` ends: after its matrix block, or after the
/// cells that the matrix declares where those reach further.
pub open spec fn zone_end(b: Seq<u8>, p: int) -> int {
    let body = text_end(b, p) + 18;
    let cells = 8 + 4 * matrix_cells(b, p);
    if matrix_len(b, p) >= 8 && cells > matrix_len(b, p) {
        body + cells
    } else {
        body + matrix_len(b, p)
    }
}

/// Where `n` zone records that start at `p` end.
pub open spec fn zones_end(b: Seq<u8>, p: int, n: nat) -> int
    decreases n,
{
    if n == 0 {
        p
    } else {
        zone_end(b, zones_end(b, p, (n - 1) as nat))
    }
}

/// How many LEDs the first `n` of the zone records that start at `p` have.
pub open spec fn zones_leds(b: Seq<u8>, p: int, n: nat) -> int
    decreases n,
{
    if n == 0 {
        0
    } else {
        zones_leds(b, p, (n - 1) as nat) + zone_leds(b, zones_end(b, p, (n - 1) as nat))
    }
}

/// Where `n` LED records (a text and a `u32`) that start at `p` end.
pub open spec fn leds_end(b: Seq<u8>, p: int, n: nat) -> int
    decreases n,
{
    if n == 0 {
        p
    } else {
        text_end(b, leds_end(b, p, (n - 1) as nat)) + 4
    }
}

/// A packed color: `R | G << 8 | B << 16`.
pub open spec fn color_of(v: int) -> Rgb {
    Rgb((v % 256) as u8, ((v / 0x100) % 256) as u8, ((v / 0x1_0000) % 256) as u8)
}

/// Where the mode section starts: after the size, the device type and six
/// texts.
pub open spec fn mode_section(b: Seq<u8>) -> int {
    texts_end(b, 8, 6)
}

pub open spec fn mode_count(b: Seq<u8>) -> nat {
    le16(b, mode_section(b)) as nat
}

/// Where the zone section starts.
pub open spec fn zone_section(b: Seq<u8>) -> int {
    modes_end(b, mode_section(b) + 6, mode_count(b))
}

pub open spec fn zone_count(b: Seq<u8>) -> nat {
    le16(b, zone_section(b)) as nat
}

/// Where the `i`-th zone record starts.
pub open spec fn zone_pos(b: Seq<u8>, i: nat) -> int {
    zones_end(b, zone_section(b) + 2, i)
}

/// Where the LED section starts.
pub open spec fn led_section(b: Seq<u8>) -> int {
    zone_pos(b, zone_count(b))
}

pub open spec fn led_count(b: Seq<u8>) -> nat {
    le16(b, led_section(b)) as nat
}

/// Where the color section starts.
pub open spec fn color_section(b: Seq<u8>) -> int {
    leds_end(b, led_section(b) + 2, led_count(b))
}

/// The controller that a description describes.
pub open spec fn describes(b: Seq<u8>, index: u32, c: Controller) -> bool {
    &&& c.index == index
    &&& c.dev_type == signed(le32(b, 4))
    &&& c.name@ == text_at(b, 8)
    &&& c.vendor@ == text_at(b, texts_end(b, 8, 1))
    &&& c.description@ == text_at(b, texts_end(b, 8, 2))
    &&& c.serial@ == text_at(b, texts_end(b, 8, 4))
    &&& c.location@ == text_at(b, texts_end(b, 8, 5))
    &&& c.active_mode == (if signed(le32(b, mode_section(b) + 2)) > 0 {
        signed(le32(b, mode_section(b) + 2))
    } else {
        0
    })
    &&& c.modes@.len() == mode_count(b)
    &&& forall|i: int|
        0 <= i < c.modes@.len() ==> mode_at(
            #[trigger] c.modes@[i],
            i,
            b,
            modes_end(b, mode_section(b) + 6, i as nat),
        )
    &&& c.zones@.len() == zone_count(b)
    &&& forall|i: int|
        0 <= i < c.zones@.len() ==> zone_at(
            #[trigger] c.zones@[i],
            zones_leds(b, zone_section(b) + 2, i as nat),
            b,
            zone_pos(b, i as nat),
        )
    &&& c.led_count == led_count(b)
    &&& c.leds@.len() == led_count(b)
    &&& forall|i: int|
        0 <= i < c.leds@.len() ==> (#[trigger] c.leds@[i])@ == text_at(
            b,
            leds_end(b, led_section(b) + 2, i as nat),
        )
    &&& c.colors@.len() == le16(b, color_section(b))
    &&& forall|i: int|
        0 <= i < c.colors@.len() ==> #[trigger] c.colors@[i] == color_of(
            le32(b, color_section(b) + 2 + 4 * i),
        )
}

/// The largest cell map that can be held in memory: eight bytes a cell, at most
/// `isize::MAX` bytes on a 64-bit machine.
pub const MAX_CELLS: u64 = 0x0FFF_FFFF_FFFF_FFFF;

/// Whether what a description declares can be represented: no matrix has more
/// cells than memory can hold, and the LED total fits its `u32`.
pub open spec fn representable(b: Seq<u8>) -> bool {
    &&& forall|i: nat| i < zone_count(b) ==> matrix_cells(b, #[trigger] zone_pos(b, i)) <= MAX_CELLS
    &&& zones_leds(b, zone_section(b) + 2, zone_count(b)) <= u32::MAX
}

// -------------------------------------------------------------- the reader

/// Positions stay far below this: every length in a description is at most 64
/// bits wide, and there are at most 2^18 records.
pub const FAR: u128 = 0x1_0000_0000_0000_0000_0000_0000;

/// Little-endian cursor over a description. The position is wider than any
/// offset that declared lengths can add up to.
pub struct Cursor<'a> {
    pub b: &'a [u8],
    pub p: u128,
}

/// `String::from_utf8_lossy`: bytes that are UTF-8 come back decoded; of any
/// others nothing is claimed but that the outcome depends on the bytes alone.
#[verifier::external_body]
fn from_utf8_lossy(raw: &[u8]) -> (r: String)
    ensures
        valid_utf8(raw@) ==> r@ == decode_utf8(raw@),
        !valid_utf8(raw@) ==> r@ == utf8_repaired(raw@),
{
    String::from_utf8_lossy(raw).into_owned()
}

impl<'a> Cursor<'a> {
    /// The byte `off` past the position, or zero past the end.
    pub fn at(&self, off: u8) -> (r: u8)
        requires
            self.p < FAR,
        ensures
            r == byte_at(self.b@, self.p + off),
    {
        let i: u128 = self.p + off as u128;
        if i < self.b.len() as u128 {
            self.b[i as usize]
        } else {
            0
        }
    }

    /// Reads a `u16`.
    pub fn u16(&mut self) -> (r: u16)
        requires
            old(self).p < FAR,
        ensures
            r == le16(old(self).b@, old(self).p as int),
            final(self).b == old(self).b,
            final(self).p == old(self).p + 2,
    {
        reveal(le16);
        let v: u16 = self.at(0) as u16 + 0x100 * (self.at(1) as u16);
        self.p = self.p + 2;
        v
    }

    /// Reads a `u32`.
    pub fn u32(&mut self) -> (r: u32)
        requires
            old(self).p < FAR,
        ensures
            r == le32(old(self).b@, old(self).p as int),
            final(self).b == old(self).b,
            final(self).p == old(self).p + 4,
    {
        reveal(le32);
        let v: u32 = self.at(0) as u32 + 0x100 * (self.at(1) as u32) + 0x1_0000 * (self.at(2) as u32)
            + 0x100_0000 * (self.at(3) as u32);
        self.p = self.p + 4;
        v
    }

    /// Reads an `i32`.
    pub fn i32(&mut self) -> (r: i32)
        requires
            old(self).p < FAR,
        ensures
            r == signed(le32(old(self).b@, old(self).p as int)),
            final(self).b == old(self).b,
            final(self).p == old(self).p + 4,
    {
        let v: u32 = self.u32();
        if v < 0x8000_0000 {
            v as i32
        } else {
            (v as i64 - 0x1_0000_0000) as i32
        }
    }

    /// Reads a text record.
    pub fn string(&mut self) -> (r: String)
        requires
            old(self).p < FAR,
        ensures
            r@ == text_at(old(self).b@, old(self).p as int),
            final(self).b == old(self).b,
            final(self).p == text_end(old(self).b@, old(self).p as int),
            final(self).p <= old(self).p + 0x1_0001,
    {
        let len: u128 = self.u16() as u128;
        let size: u128 = self.b.len() as u128;
        let from: u128 = if self.p < size { self.p } else { size };
        let to: u128 = if self.p + len < size { self.p + len } else { size };
        let raw = slice_subrange(self.b, from as usize, to as usize);
        assert(raw@ == raw_text(old(self).b@, old(self).p as int));
        self.p = self.p + len;
        if raw.len() > 0 && raw[raw.len() - 1] == 0 {
            let bare = slice_subrange(raw, 0, raw.len() - 1);
            assert(bare@ =~= raw@.drop_last());
            from_utf8_lossy(bare)
        } else {
            from_utf8_lossy(raw)
        }
    }

    /// Skips `n` bytes.
    pub fn skip(&mut self, n: u32)
        requires
            old(self).p < FAR,
        ensures
            final(self).b == old(self).b,
            final(self).p == old(self).p + n,
    {
        self.p = self.p + n as u128;
    }

    /// Reads a mode record as the `index`-th mode.
    fn mode(&mut self, index: u32) -> (r: Mode)
        requires
            old(self).p + 0x10_0000 < FAR,
        ensures
            mode_at(r, index as int, old(self).b@, old(self).p as int),
            final(self).b == old(self).b,
            final(self).p == mode_end(old(self).b@, old(self).p as int),
            final(self).p <= old(self).p + 0x10_0000,
    {
        let name = self.string();
        let ghost s = self.p as int;
        let value: i32 = self.i32();
        let flags: u32 = self.u32();
        let speed_min: u32 = self.u32();
        let speed_max: u32 = self.u32();
        let brightness_min: u32 = self.u32();
        let brightness_max: u32 = self.u32();
        let colors_min: u32 = self.u32();
        let colors_max: u32 = self.u32();
        let speed: u32 = self.u32();
        let brightness: u32 = self.u32();
        let direction: u32 = self.u32();
        let color_mode: u32 = self.u32();
        let num_colors: u16 = self.u16();
        let mut colors: Vec<u32> = Vec::new();
        let mut j: u16 = 0;
        while j < num_colors
            invariant
                j <= num_colors,
                s + 0x8_0000 < FAR,
                self.b == old(self).b,
                self.p == s + 50 + 4 * j,
                colors@.len() == j,
                forall|k: int|
                    0 <= k < j ==> #[trigger] colors@[k] == le32(self.b@, s + 50 + 4 * k),
            decreases num_colors - j,
        {
            colors.push(self.u32());
            j += 1;
        }
        Mode {
            index,
            name,
            value,
            flags,
            speed_min,
            speed_max,
            brightness_min,
            brightness_max,
            colors_min,
            colors_max,
            speed,
            brightness,
            direction,
            color_mode,
            colors,
        }
    }

    /// Reads the rest of a zone record's matrix block, `len` bytes long.
    /// `None` when it declares more cells than memory can hold.
    fn matrix(&mut self, len: u16, at: Ghost<int>) -> (r: Option<Option<MatrixDesc>>)
        requires
            old(self).p + 0x100_0000_0000_0000_0000 < FAR,
            at@ >= 0,
            old(self).p == text_end(old(self).b@, at@) + 18,
            len == matrix_len(old(self).b@, at@),
        ensures
            final(self).b == old(self).b,
            match r {
                Some(m) => {
                    &&& matrix_cells(old(self).b@, at@) <= MAX_CELLS
                    &&& matrix_at(m, old(self).b@, at@)
                    &&& final(self).p == zone_end(old(self).b@, at@)
                    &&& final(self).p <= old(self).p + 0x100_0000_0000_0000_0000
                },
                None => matrix_cells(old(self).b@, at@) > MAX_CELLS,
            },
    {
        if len < 8 {
            self.skip(len as u32);
            return Some(None);
        }
        let ghost s = text_end(old(self).b@, at@);
        let height: u32 = self.u32();
        let width: u32 = self.u32();
        assert(0 <= height * width <= 0xFFFF_FFFF * 0xFFFF_FFFF) by (nonlinear_arith)
            requires
                0 <= height <= 0xFFFF_FFFF,
                0 <= width <= 0xFFFF_FFFF,
        ;
        let n: u64 = height as u64 * width as u64;
        if n > MAX_CELLS {
            return None;
        }
        let mut map: Vec<Option<u32>> = Vec::new();
        let mut k: u64 = 0;
        while k < n
            invariant
                k <= n <= MAX_CELLS,
                s + 0x10_0000_0000_0000_0000 < FAR,
                self.b == old(self).b,
                self.p == s + 26 + 4 * k,
                map@.len() == k,
                forall|i: int|
                    0 <= i < k ==> #[trigger] map@[i] == cell_of(le32(self.b@, s + 26 + 4 * i)),
            decreases n - k,
        {
            let v: u32 = self.u32();
            map.push(
                if v == 0xFFFF_FFFF {
                    None
                } else {
                    Some(v)
                },
            );
            k += 1;
        }
        let read: u64 = 8 + 4 * n;
        if len as u64 > read {
            self.skip((len as u64 - read) as u32);
        }
        Some(Some(MatrixDesc { height, width, map }))
    }

    /// Reads a zone record as a zone whose LEDs start at `start`. `None` when
    /// its matrix declares more cells than memory can hold.
    fn zone(&mut self, start: u32) -> (r: Option<ZoneDesc>)
        requires
            old(self).p + 0x200_0000_0000_0000_0000 < FAR,
        ensures
            final(self).b == old(self).b,
            match r {
                Some(z) => {
                    &&& matrix_cells(old(self).b@, old(self).p as int) <= MAX_CELLS
                    &&& zone_at(z, start as int, old(self).b@, old(self).p as int)
                    &&& final(self).p == zone_end(old(self).b@, old(self).p as int)
                    &&& final(self).p <= old(self).p + 0x200_0000_0000_0000_0000
                },
                None => matrix_cells(old(self).b@, old(self).p as int) > MAX_CELLS,
            },
    {
        let name = self.string();
        let kind: i32 = self.i32();
        let leds_min: u32 = self.u32();
        let leds_max: u32 = self.u32();
        let leds_count: u32 = self.u32();
        let len: u16 = self.u16();
        match self.matrix(len, Ghost(old(self).p as int)) {
            None => None,
            Some(matrix) => Some(
                ZoneDesc { name, kind, leds_min, leds_max, leds_count, start, matrix },
            ),
        }
    }
}

/// More zones never have fewer LEDs.
proof fn zones_leds_grow(b: Seq<u8>, p: int, m: nat, n: nat)
    requires
        m <= n,
    ensures
        zones_leds(b, p, m) <= zones_leds(b, p, n),
    decreases n,
{
    reveal(le32);
    if m < n {
        zones_leds_grow(b, p, m, (n - 1) as nat);
    }
}

/// The modes of a description, read from their section on.
fn read_modes(c: &mut Cursor, n: u16) -> (r: Vec<Mode>)
    requires
        old(c).p < 0x1_0000_0000,
    ensures
        final(c).b == old(c).b,
        final(c).p == modes_end(old(c).b@, old(c).p as int, n as nat),
        final(c).p < 0x100_0000_0000,
        r@.len() == n,
        forall|i: int|
            0 <= i < n ==> mode_at(
                #[trigger] r@[i],
                i,
                old(c).b@,
                modes_end(old(c).b@, old(c).p as int, i as nat),
            ),
{
    let mut modes: Vec<Mode> = Vec::new();
    let mut i: u16 = 0;
    while i < n
        invariant
            i <= n,
            c.b == old(c).b,
            old(c).p < 0x1_0000_0000,
            c.p <= old(c).p + i * 0x10_0000,
            c.p == modes_end(old(c).b@, old(c).p as int, i as nat),
            modes@.len() == i,
            forall|k: int|
                0 <= k < i ==> mode_at(
                    #[trigger] modes@[k],
                    k,
                    old(c).b@,
                    modes_end(old(c).b@, old(c).p as int, k as nat),
                ),
        decreases n - i,
    {
        modes.push(c.mode(i as u32));
        i += 1;
    }
    modes
}

/// The zones of a description, read from the first record on. `None` when
/// what they declare cannot be represented.
fn read_zones(c: &mut Cursor, n: u16) -> (r: Option<Vec<ZoneDesc>>)
    requires
        old(c).p < 0x1000_0000_0000,
    ensures
        final(c).b == old(c).b,
        match r {
            Some(zones) => {
                &&& final(c).p == zones_end(old(c).b@, old(c).p as int, n as nat)
                &&& final(c).p < 0x1000_0000_0000_0000_0000_0000
                &&& zones@.len() == n
                &&& forall|i: int|
                    0 <= i < n ==> zone_at(
                        #[trigger] zones@[i],
                        zones_leds(old(c).b@, old(c).p as int, i as nat),
                        old(c).b@,
                        zones_end(old(c).b@, old(c).p as int, i as nat),
                    )
                &&& forall|i: nat|
                    i < n ==> matrix_cells(
                        old(c).b@,
                        #[trigger] zones_end(old(c).b@, old(c).p as int, i),
                    ) <= MAX_CELLS
                &&& zones_leds(old(c).b@, old(c).p as int, n as nat) <= u32::MAX
            },
            None => {
                ||| exists|i: nat|
                    i < n && matrix_cells(
                        old(c).b@,
                        #[trigger] zones_end(old(c).b@, old(c).p as int, i),
                    ) > MAX_CELLS
                ||| zones_leds(old(c).b@, old(c).p as int, n as nat) > u32::MAX
            },
        },
{
    let ghost b = c.b@;
    let ghost p = c.p as int;
    let mut zones: Vec<ZoneDesc> = Vec::new();
    let mut start: u32 = 0;
    let mut i: u16 = 0;
    while i < n
        invariant
            i <= n,
            c.b == old(c).b,
            b == old(c).b@,
            p == old(c).p,
            p < 0x1000_0000_0000,
            c.p <= p + i * 0x200_0000_0000_0000_0000,
            c.p == zones_end(b, p, i as nat),
            start == zones_leds(b, p, i as nat),
            zones@.len() == i,
            forall|k: int|
                0 <= k < i ==> zone_at(
                    #[trigger] zones@[k],
                    zones_leds(b, p, k as nat),
                    b,
                    zones_end(b, p, k as nat),
                ),
            forall|k: nat| k < i ==> matrix_cells(b, #[trigger] zones_end(b, p, k)) <= MAX_CELLS,
        decreases n - i,
    {
        match c.zone(start) {
            None => {
                assert(matrix_cells(b, zones_end(b, p, i as nat)) > MAX_CELLS);
                return None;
            },
            Some(zone) => {
                let count: u32 = zone.leds_count;
                assert(zones_leds(b, p, (i + 1) as nat) == start + count);
                if count > u32::MAX - start {
                    proof {
                        zones_leds_grow(b, p, (i + 1) as nat, n as nat);
                    }
                    return None;
                }
                start += count;
                zones.push(zone);
            },
        }
        i += 1;
    }
    Some(zones)
}

/// The LED names of a description, read from the first record on.
fn read_leds(c: &mut Cursor, n: u16) -> (r: Vec<String>)
    requires
        old(c).p < 0x2000_0000_0000_0000_0000_0000,
    ensures
        final(c).b == old(c).b,
        final(c).p == leds_end(old(c).b@, old(c).p as int, n as nat),
        final(c).p < 0x4000_0000_0000_0000_0000_0000,
        r@.len() == n,
        forall|i: int|
            0 <= i < n ==> (#[trigger] r@[i])@ == text_at(
                old(c).b@,
                leds_end(old(c).b@, old(c).p as int, i as nat),
            ),
{
    let mut leds: Vec<String> = Vec::new();
    let mut i: u16 = 0;
    while i < n
        invariant
            i <= n,
            c.b == old(c).b,
            old(c).p < 0x2000_0000_0000_0000_0000_0000,
            c.p <= old(c).p + i * 0x2_0000,
            c.p == leds_end(old(c).b@, old(c).p as int, i as nat),
            leds@.len() == i,
            forall|k: int|
                0 <= k < i ==> (#[trigger] leds@[k])@ == text_at(
                    old(c).b@,
                    leds_end(old(c).b@, old(c).p as int, k as nat),
                ),
        decreases n - i,
    {
        leds.push(c.string());
        c.skip(4);
        i += 1;
    }
    leds
}

/// Unpacks a color packed as `R | G << 8 | B << 16`.
pub fn unpack_color(v: u32) -> (r: Rgb)
    ensures
        r == color_of(v as int),
{
    Rgb((v % 256) as u8, ((v / 0x100) % 256) as u8, ((v / 0x1_0000) % 256) as u8)
}

/// The colors of a description, read from the first on.
fn read_colors(c: &mut Cursor, n: u16) -> (r: Vec<Rgb>)
    requires
        old(c).p < 0x8000_0000_0000_0000_0000_0000,
    ensures
        r@.len() == n,
        forall|i: int|
            0 <= i < n ==> #[trigger] r@[i] == color_of(le32(old(c).b@, old(c).p + 4 * i)),
        final(c).b == old(c).b,
        final(c).p == old(c).p + 4 * n,
{
    let mut colors: Vec<Rgb> = Vec::new();
    let mut i: u16 = 0;
    while i < n
        invariant
            i <= n,
            c.b == old(c).b,
            old(c).p < 0x8000_0000_0000_0000_0000_0000,
            c.p == old(c).p + 4 * i,
            colors@.len() == i,
            forall|k: int|
                0 <= k < i ==> #[trigger] colors@[k] == color_of(le32(old(c).b@, old(c).p + 4 * k)),
        decreases n - i,
    {
        colors.push(unpack_color(c.u32()));
        i += 1;
    }
    colors
}

/// The fixed head of a description: everything before the mode records.
struct Head {
    dev_type: i32,
    name: String,
    vendor: String,
    description: String,
    serial: String,
    location: String,
    num_modes: u16,
    active_mode: usize,
}

/// Reads the head of a description.
fn read_head(c: &mut Cursor) -> (r: Head)
    requires
        old(c).p == 0,
    ensures
        final(c).b == old(c).b,
        final(c).p == mode_section(old(c).b@) + 6,
        final(c).p < 0x1_0000_0000,
        r.dev_type == signed(le32(old(c).b@, 4)),
        r.name@ == text_at(old(c).b@, 8),
        r.vendor@ == text_at(old(c).b@, texts_end(old(c).b@, 8, 1)),
        r.description@ == text_at(old(c).b@, texts_end(old(c).b@, 8, 2)),
        r.serial@ == text_at(old(c).b@, texts_end(old(c).b@, 8, 4)),
        r.location@ == text_at(old(c).b@, texts_end(old(c).b@, 8, 5)),
        r.num_modes == mode_count(old(c).b@),
        r.active_mode == (if signed(le32(old(c).b@, mode_section(old(c).b@) + 2)) > 0 {
            signed(le32(old(c).b@, mode_section(old(c).b@) + 2))
        } else {
            0
        }),
{
    proof {
        reveal_with_fuel(texts_end, 7);
    }
    let _data_size: u32 = c.u32();
    let dev_type: i32 = c.i32();
    let name = c.string();
    let vendor = c.string();
    let description = c.string();
    let _version = c.string();
    let serial = c.string();
    let location = c.string();
    let num_modes: u16 = c.u16();
    let active: i32 = c.i32();
    let active_mode: usize = if active > 0 {
        active as usize
    } else {
        0
    };
    Head { dev_type, name, vendor, description, serial, location, num_modes, active_mode }
}

/// Reads any controller description. `None` when what it declares cannot be
/// represented in memory.
pub fn try_parse_controller(index: u32, blob: &[u8]) -> (r: Option<Result<Controller, WireError>>)
    ensures
        match r {
            Some(Err(e)) => blob@.len() < 8 && e == WireError::ShortBlob,
            Some(Ok(c)) => {
                &&& blob@.len() >= 8
                &&& representable(blob@)
                &&& describes(blob@, index, c)
            },
            None => blob@.len() >= 8 && !representable(blob@),
        },
{
    if blob.len() < 8 {
        return Some(Err(WireError::ShortBlob));
    }
    let ghost b = blob@;
    let mut c = Cursor { b: blob, p: 0 };
    let head = read_head(&mut c);
    let modes = read_modes(&mut c, head.num_modes);
    assert(c.p == zone_section(b));
    let num_zones: u16 = c.u16();
    let zones = match read_zones(&mut c, num_zones) {
        None => {
            proof {
                if representable(b) {
                    assert forall|i: nat| i < num_zones implies matrix_cells(
                        b,
                        #[trigger] zones_end(b, zone_section(b) + 2, i),
                    ) <= MAX_CELLS by {
                        assert(matrix_cells(b, zone_pos(b, i)) <= MAX_CELLS);
                    }
                }
            }
            return None;
        },
        Some(zones) => zones,
    };
    assert(c.p == led_section(b));
    let num_leds: u16 = c.u16();
    let leds = read_leds(&mut c, num_leds);
    assert(c.p == color_section(b));
    let num_colors: u16 = c.u16();
    let colors = read_colors(&mut c, num_colors);
    Some(
        Ok(
            Controller {
                index,
                name: head.name,
                vendor: head.vendor,
                description: head.description,
                location: head.location,
                serial: head.serial,
                dev_type: head.dev_type,
                modes,
                active_mode: head.active_mode,
                zones,
                leds,
                colors,
                led_count: num_leds,
            },
        ),
    )
}

/// Reads a controller description whose declared sizes are representable.
pub fn parse_controller(index: u32, blob: &[u8]) -> (r: Result<Controller, WireError>)
    requires
        blob@.len() < 8 || representable(blob@),
    ensures
        match r {
            Err(e) => blob@.len() < 8 && e == WireError::ShortBlob,
            Ok(c) => blob@.len() >= 8 && describes(blob@, index, c),
        },
{
    match try_parse_controller(index, blob) {
        Some(r) => r,
        // Ruled out by the precondition.
        None => Err(WireError::ShortBlob),
    }
}

/// Zones are contiguous: in every controller that a description describes, a
/// zone's LEDs start where those of the zones before it end.
pub proof fn zones_are_contiguous(b: Seq<u8>, index: u32, c: Controller, i: int)
    requires
        describes(b, index, c),
        0 <= i < c.zones@.len(),
    ensures
        i == 0 ==> c.zones@[0].start == 0,
        i + 1 < c.zones@.len() ==> c.zones@[i + 1].start == c.zones@[i].start
            + c.zones@[i].leds_count,
{
    if i + 1 < c.zones@.len() {
        assert(zone_at(
            c.zones@[i + 1],
            zones_leds(b, zone_section(b) + 2, (i + 1) as nat),
            b,
            zone_pos(b, (i + 1) as nat),
        ));
    }
}

/// A matrix map is complete: it has a cell for every row and column.
pub proof fn matrix_maps_are_complete(b: Seq<u8>, index: u32, c: Controller, i: int)
    requires
        describes(b, index, c),
        0 <= i < c.zones@.len(),
    ensures
        c.zones@[i].matrix matches Some(m) ==> m.map@.len() == m.height * m.width,
{
}

/// Every LED has a name: the LED names line up with the LED count.
pub proof fn led_names_match_led_count(b: Seq<u8>, index: u32, c: Controller)
    requires
        describes(b, index, c),
    ensures
        c.leds@.len() == c.led_count,
{
}

} // verus!

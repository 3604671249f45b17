//! What a server wrote is what is read: a description laid out field by field
//! describes the controller it was laid out for.

use vstd::prelude::*;
use vstd::utf8::encode_utf8;

use crate::openrgb::description::{
    cell_of, color_section, describes, le16, le32, led_section, leds_end, matrix_cells, mode_at,
    mode_count, mode_section, modes_end, signed, text_at, text_end, texts_end, zone_at, zone_count,
    zone_end, zone_leds, zone_section, zones_end, zones_leds,
};
use crate::openrgb::wire::{
    bytes16, bytes32, i32_reads_back, mode_bytes, mode_reads_back, packed_color, packed_color_bytes,
    packed_colors_unpack, pattern, text_bytes, text_reads_back, u16_reads_back, u32_reads_back,
    words, words_len, words_read_back,
};
use crate::openrgb::{Controller, MatrixDesc, Mode, ZoneDesc};
use crate::rgb::Rgb;

verus! {

// -------------------------------------------------------------- the layout

/// Some records, one after the other.
pub open spec fn run(records: Seq<Seq<u8>>, n: nat) -> Seq<u8>
    decreases n,
{
    if n == 0 {
        Seq::empty()
    } else {
        run(records, (n - 1) as nat) + records[n - 1]
    }
}

/// Whether a text fits a record.
pub open spec fn fits(text: Seq<char>) -> bool {
    encode_utf8(text).len() + 1 < 0x1_0000
}

/// A matrix cell on the wire: its LED, or all ones for a gap.
pub open spec fn cell_word(c: Option<u32>) -> u32 {
    match c {
        Some(v) => v,
        None => 0xFFFF_FFFF,
    }
}

/// A zone's matrix block: its size, then height, width and cells.
pub open spec fn matrix_bytes(m: Option<MatrixDesc>) -> Seq<u8> {
    match m {
        None => bytes16(0),
        Some(d) => bytes16((8 + 4 * d.map@.len()) as int) + bytes32(d.height as int) + bytes32(
            d.width as int,
        ) + words(d.map@.map_values(|c: Option<u32>| cell_word(c))),
    }
}

/// A zone record: the name, the kind, the LED limits and count, the matrix.
pub open spec fn zone_bytes(z: ZoneDesc) -> Seq<u8> {
    text_bytes(z.name@) + bytes32(pattern(z.kind as int)) + bytes32(z.leds_min as int) + bytes32(
        z.leds_max as int,
    ) + bytes32(z.leds_count as int) + matrix_bytes(z.matrix)
}

/// Whether a zone can be laid out: its name fits, and its matrix has a cell a
/// row and column, fits its size field and names no LED by the gap's number.
pub open spec fn zone_fits(z: ZoneDesc) -> bool {
    &&& fits(z.name@)
    &&& z.matrix matches Some(d) ==> {
        &&& d.map@.len() == d.height * d.width
        &&& 8 + 4 * d.map@.len() < 0x1_0000
        &&& forall|k: int| 0 <= k < d.map@.len() ==> #[trigger] d.map@[k] != Some(0xFFFF_FFFFu32)
    }
}

/// Whether a mode can be laid out.
pub open spec fn mode_fits(m: Mode) -> bool {
    fits(m.name@) && m.colors@.len() < 0x1_0000
}

/// A controller's six texts, in the order they stand: the fourth is the version,
/// which nothing reads.
pub open spec fn head_texts(c: Controller, version: Seq<char>) -> Seq<Seq<char>> {
    seq![c.name@, c.vendor@, c.description@, version, c.serial@, c.location@]
}

pub open spec fn text_records(texts: Seq<Seq<char>>) -> Seq<Seq<u8>> {
    Seq::new(texts.len(), |i: int| text_bytes(texts[i]))
}

pub open spec fn mode_records(modes: Seq<Mode>) -> Seq<Seq<u8>> {
    Seq::new(modes.len(), |i: int| mode_bytes(modes[i]))
}

pub open spec fn zone_records(zones: Seq<ZoneDesc>) -> Seq<Seq<u8>> {
    Seq::new(zones.len(), |i: int| zone_bytes(zones[i]))
}

/// LED records: a name and a value that nothing reads.
pub open spec fn led_records(leds: Seq<String>, value: u32) -> Seq<Seq<u8>> {
    Seq::new(leds.len(), |i: int| text_bytes(leds[i]@) + bytes32(value as int))
}

pub open spec fn color_words(colors: Seq<Rgb>) -> Seq<u32> {
    Seq::new(colors.len(), |i: int| packed_color(colors[i]) as u32)
}

/// A laid out controller's sections: the size, the device type, the texts, the
/// mode count and the active mode, the modes, and count and records of the zones,
/// the LEDs and the colors.
pub open spec fn sections(
    c: Controller,
    size: u32,
    active: i32,
    version: Seq<char>,
    value: u32,
) -> Seq<Seq<u8>> {
    seq![
        bytes32(size as int),
        bytes32(pattern(c.dev_type as int)),
        run(text_records(head_texts(c, version)), 6),
        bytes16(c.modes@.len() as int),
        bytes32(pattern(active as int)),
        run(mode_records(c.modes@), c.modes@.len()),
        bytes16(c.zones@.len() as int),
        run(zone_records(c.zones@), c.zones@.len()),
        bytes16(c.leds@.len() as int),
        run(led_records(c.leds@, value), c.leds@.len()),
        bytes16(c.colors@.len() as int),
        words(color_words(c.colors@)),
    ]
}

/// A controller laid out: its sections, one after the other.
pub open spec fn laid_out(
    c: Controller,
    size: u32,
    active: i32,
    version: Seq<char>,
    value: u32,
) -> Seq<u8> {
    run(sections(c, size, active, version, value), 12)
}

/// Whether a controller can be laid out.
pub open spec fn controller_fits(c: Controller, version: Seq<char>) -> bool {
    &&& forall|i: int| 0 <= i < 6 ==> fits(#[trigger] head_texts(c, version)[i])
    &&& c.modes@.len() < 0x1_0000
    &&& forall|i: int| 0 <= i < c.modes@.len() ==> mode_fits(#[trigger] c.modes@[i])
    &&& c.zones@.len() < 0x1_0000
    &&& forall|i: int| 0 <= i < c.zones@.len() ==> zone_fits(#[trigger] c.zones@[i])
    &&& c.leds@.len() < 0x1_0000
    &&& forall|i: int| 0 <= i < c.leds@.len() ==> fits((#[trigger] c.leds@[i])@)
    &&& c.colors@.len() < 0x1_0000
}

// ------------------------------------------------------------------ places

proof fn runs_start_alike(records: Seq<Seq<u8>>, i: nat, n: nat)
    requires
        i <= n,
    ensures
        run(records, i).len() <= run(records, n).len(),
        run(records, n).take(run(records, i).len() as int) == run(records, i),
    decreases n,
{
    if i == n {
        assert(run(records, n).take(run(records, n).len() as int) =~= run(records, n));
    } else {
        runs_start_alike(records, i, (n - 1) as nat);
        let before = run(records, (n - 1) as nat);
        assert(run(records, n).take(run(records, i).len() as int) =~= before.take(
            run(records, i).len() as int,
        ));
    }
}

/// What stands behind the `i`-th record of a run.
pub open spec fn behind(records: Seq<Seq<u8>>, n: nat, i: int, post: Seq<u8>) -> Seq<u8> {
    run(records, n).skip(run(records, (i + 1) as nat).len() as int) + post
}

proof fn record_in_place(pre: Seq<u8>, records: Seq<Seq<u8>>, n: nat, post: Seq<u8>, i: int)
    requires
        0 <= i < n,
    ensures
        pre + run(records, n) + post == (pre + run(records, i as nat)) + records[i] + behind(
            records,
            n,
            i,
            post,
        ),
{
    runs_start_alike(records, (i + 1) as nat, n);
    let whole = run(records, n);
    let upto = run(records, (i + 1) as nat);
    assert(upto == run(records, i as nat) + records[i]);
    assert(whole =~= upto + whole.skip(upto.len() as int));
    assert(pre + whole + post =~= (pre + run(records, i as nat)) + records[i] + behind(
        records,
        n,
        i,
        post,
    ));
}

proof fn texts_in_place(pre: Seq<u8>, texts: Seq<Seq<char>>, post: Seq<u8>, i: nat)
    requires
        forall|k: int| 0 <= k < texts.len() ==> fits(#[trigger] texts[k]),
        i <= texts.len(),
    ensures
        ({
            let records = text_records(texts);
            let b = pre + run(records, texts.len()) + post;
            &&& texts_end(b, pre.len() as int, i) == pre.len() + run(records, i).len()
            &&& i < texts.len() ==> text_at(b, (pre.len() + run(records, i).len()) as int)
                == texts[i as int]
        }),
    decreases i,
{
    let records = text_records(texts);
    let n = texts.len();
    let b = pre + run(records, n) + post;
    if i > 0 {
        texts_in_place(pre, texts, post, (i - 1) as nat);
        record_in_place(pre, records, n, post, i - 1);
        let head = pre + run(records, (i - 1) as nat);
        let tail = behind(records, n, i - 1, post);
        assert(fits(texts[i - 1]));
        assert(records[i - 1] == text_bytes(texts[i - 1]));
        text_reads_back(head, texts[i - 1], tail);
    }
    if i < n {
        record_in_place(pre, records, n, post, i as int);
        let head = pre + run(records, i);
        let tail = behind(records, n, i as int, post);
        assert(fits(texts[i as int]));
        assert(records[i as int] == text_bytes(texts[i as int]));
        text_reads_back(head, texts[i as int], tail);
    }
}

proof fn modes_in_place(pre: Seq<u8>, modes: Seq<Mode>, post: Seq<u8>, i: nat)
    requires
        forall|k: int| 0 <= k < modes.len() ==> mode_fits(#[trigger] modes[k]),
        i <= modes.len(),
    ensures
        ({
            let records = mode_records(modes);
            let b = pre + run(records, modes.len()) + post;
            &&& modes_end(b, pre.len() as int, i) == pre.len() + run(records, i).len()
            &&& i < modes.len() ==> mode_at(
                modes[i as int],
                modes[i as int].index as int,
                b,
                (pre.len() + run(records, i).len()) as int,
            )
        }),
    decreases i,
{
    let records = mode_records(modes);
    let n = modes.len();
    if i > 0 {
        modes_in_place(pre, modes, post, (i - 1) as nat);
        record_in_place(pre, records, n, post, i - 1);
        let head = pre + run(records, (i - 1) as nat);
        let tail = behind(records, n, i - 1, post);
        assert(mode_fits(modes[i - 1]));
        assert(records[i - 1] == mode_bytes(modes[i - 1]));
        mode_reads_back(head, modes[i - 1], tail);
    }
    if i < n {
        record_in_place(pre, records, n, post, i as int);
        let head = pre + run(records, i);
        let tail = behind(records, n, i as int, post);
        assert(mode_fits(modes[i as int]));
        assert(records[i as int] == mode_bytes(modes[i as int]));
        mode_reads_back(head, modes[i as int], tail);
    }
}

proof fn matrix_reads_back(head: Seq<u8>, m: Option<MatrixDesc>, post: Seq<u8>)
    requires
        m matches Some(d) ==> {
            &&& d.map@.len() == d.height * d.width
            &&& 8 + 4 * d.map@.len() < 0x1_0000
            &&& forall|k: int| 0 <= k < d.map@.len() ==> #[trigger] d.map@[k] != Some(0xFFFF_FFFFu32)
        },
    ensures
        ({
            let b = head + matrix_bytes(m) + post;
            let s = head.len() as int;
            match m {
                None => le16(b, s) == 0 && matrix_bytes(m).len() == 2,
                Some(d) => {
                    &&& le16(b, s) == 8 + 4 * d.map@.len()
                    &&& le32(b, s + 2) == d.height
                    &&& le32(b, s + 6) == d.width
                    &&& forall|k: int|
                        0 <= k < d.map@.len() ==> cell_of(le32(b, s + 10 + 4 * k))
                            == #[trigger] d.map@[k]
                    &&& matrix_bytes(m).len() == 10 + 4 * d.map@.len()
                },
            }
        }),
{
    let b = head + matrix_bytes(m) + post;
    match m {
        None => {
            u16_reads_back(head, 0, post);
        },
        Some(d) => {
            let cells = d.map@.map_values(|c: Option<u32>| cell_word(c));
            let size = bytes16((8 + 4 * d.map@.len()) as int);
            let h = bytes32(d.height as int);
            let w = bytes32(d.width as int);
            let body = words(cells);
            words_len(cells);
            assert(b =~= head + size + (h + w + body + post));
            u16_reads_back(head, (8 + 4 * d.map@.len()) as int, h + w + body + post);
            assert(b =~= (head + size) + h + (w + body + post));
            u32_reads_back(head + size, d.height as int, w + body + post);
            assert(b =~= (head + size + h) + w + (body + post));
            u32_reads_back(head + size + h, d.width as int, body + post);
            assert forall|k: int| 0 <= k < d.map@.len() implies cell_of(
                le32(b, head.len() + 10 + 4 * k),
            ) == #[trigger] d.map@[k] by {
                assert(b =~= (head + size + h + w) + body + post);
                words_read_back(head + size + h + w, cells, post, k);
                assert(cells[k] == cell_word(d.map@[k]));
            }
        },
    }
}

proof fn zone_reads_back(pre: Seq<u8>, z: ZoneDesc, post: Seq<u8>)
    requires
        zone_fits(z),
    ensures
        zone_at(z, z.start as int, pre + zone_bytes(z) + post, pre.len() as int),
        zone_end(pre + zone_bytes(z) + post, pre.len() as int) == pre.len() + zone_bytes(z).len(),
        zone_leds(pre + zone_bytes(z) + post, pre.len() as int) == z.leds_count,
{
    let b = pre + zone_bytes(z) + post;
    let p = pre.len() as int;
    let name = text_bytes(z.name@);
    let kind = bytes32(pattern(z.kind as int));
    let low = bytes32(z.leds_min as int);
    let high = bytes32(z.leds_max as int);
    let count = bytes32(z.leds_count as int);
    let matrix = matrix_bytes(z.matrix);
    assert(b =~= pre + name + (kind + low + high + count + matrix + post));
    text_reads_back(pre, z.name@, kind + low + high + count + matrix + post);
    let a = pre + name;
    assert(b =~= a + kind + (low + high + count + matrix + post));
    i32_reads_back(a, z.kind, low + high + count + matrix + post);
    assert(b =~= (a + kind) + low + (high + count + matrix + post));
    u32_reads_back(a + kind, z.leds_min as int, high + count + matrix + post);
    assert(b =~= (a + kind + low) + high + (count + matrix + post));
    u32_reads_back(a + kind + low, z.leds_max as int, count + matrix + post);
    assert(b =~= (a + kind + low + high) + count + (matrix + post));
    u32_reads_back(a + kind + low + high, z.leds_count as int, matrix + post);
    let head = a + kind + low + high + count;
    assert(b =~= head + matrix + post);
    matrix_reads_back(head, z.matrix, post);
    let s = text_end(b, p);
    assert(head.len() == s + 16);
    if let Some(d) = z.matrix {
        assert(matrix_cells(b, p) == d.map@.len());
    }
}

proof fn zones_in_place(pre: Seq<u8>, zones: Seq<ZoneDesc>, post: Seq<u8>, i: nat)
    requires
        forall|k: int| 0 <= k < zones.len() ==> zone_fits(#[trigger] zones[k]),
        i <= zones.len(),
    ensures
        ({
            let records = zone_records(zones);
            let b = pre + run(records, zones.len()) + post;
            &&& zones_end(b, pre.len() as int, i) == pre.len() + run(records, i).len()
            &&& i < zones.len() ==> zone_at(
                zones[i as int],
                zones[i as int].start as int,
                b,
                (pre.len() + run(records, i).len()) as int,
            )
        }),
    decreases i,
{
    let records = zone_records(zones);
    let n = zones.len();
    if i > 0 {
        zones_in_place(pre, zones, post, (i - 1) as nat);
        record_in_place(pre, records, n, post, i - 1);
        let head = pre + run(records, (i - 1) as nat);
        let tail = behind(records, n, i - 1, post);
        assert(zone_fits(zones[i - 1]));
        assert(records[i - 1] == zone_bytes(zones[i - 1]));
        zone_reads_back(head, zones[i - 1], tail);
    }
    if i < n {
        record_in_place(pre, records, n, post, i as int);
        let head = pre + run(records, i);
        let tail = behind(records, n, i as int, post);
        assert(zone_fits(zones[i as int]));
        assert(records[i as int] == zone_bytes(zones[i as int]));
        zone_reads_back(head, zones[i as int], tail);
    }
}

proof fn led_reads_back(pre: Seq<u8>, name: Seq<char>, value: u32, post: Seq<u8>)
    requires
        fits(name),
    ensures
        ({
            let record = text_bytes(name) + bytes32(value as int);
            let b = pre + record + post;
            &&& text_at(b, pre.len() as int) == name
            &&& text_end(b, pre.len() as int) + 4 == pre.len() + record.len()
        }),
{
    let text = text_bytes(name);
    let word = bytes32(value as int);
    assert(pre + (text + word) + post =~= pre + text + (word + post));
    text_reads_back(pre, name, word + post);
}

proof fn leds_in_place(pre: Seq<u8>, leds: Seq<String>, value: u32, post: Seq<u8>, i: nat)
    requires
        forall|k: int| 0 <= k < leds.len() ==> fits((#[trigger] leds[k])@),
        i <= leds.len(),
    ensures
        ({
            let records = led_records(leds, value);
            let b = pre + run(records, leds.len()) + post;
            &&& leds_end(b, pre.len() as int, i) == pre.len() + run(records, i).len()
            &&& i < leds.len() ==> text_at(b, (pre.len() + run(records, i).len()) as int)
                == leds[i as int]@
        }),
    decreases i,
{
    let records = led_records(leds, value);
    let n = leds.len();
    if i > 0 {
        leds_in_place(pre, leds, value, post, (i - 1) as nat);
        record_in_place(pre, records, n, post, i - 1);
        let head = pre + run(records, (i - 1) as nat);
        assert(fits(leds[i - 1]@));
        led_reads_back(head, leds[i - 1]@, value, behind(records, n, i - 1, post));
    }
    if i < n {
        record_in_place(pre, records, n, post, i as int);
        assert(fits(leds[i as int]@));
        led_reads_back(
            pre + run(records, i),
            leds[i as int]@,
            value,
            behind(records, n, i as int, post),
        );
    }
}

// -------------------------------------------------------------------- laws

/// What stands before and behind a section.
proof fn section_in_place(p: Seq<Seq<u8>>, i: int)
    requires
        0 <= i < 12,
    ensures
        run(p, 12) == run(p, i as nat) + p[i] + behind(p, 12, i, Seq::empty()),
{
    let none = Seq::<u8>::empty();
    record_in_place(none, p, 12, none, i);
    assert(none + run(p, 12) + none =~= run(p, 12));
    assert(none + run(p, i as nat) =~= run(p, i as nat));
}

/// Where the sections start.
proof fn section_starts(p: Seq<Seq<u8>>)
    requires
        p[0].len() == 4,
        p[1].len() == 4,
        p[3].len() == 2,
        p[4].len() == 4,
        p[6].len() == 2,
        p[8].len() == 2,
        p[10].len() == 2,
    ensures
        run(p, 1).len() == 4,
        run(p, 2).len() == 8,
        run(p, 3).len() == 8 + p[2].len(),
        run(p, 4).len() == run(p, 3).len() + 2,
        run(p, 5).len() == run(p, 3).len() + 6,
        run(p, 6).len() == run(p, 5).len() + p[5].len(),
        run(p, 7).len() == run(p, 6).len() + 2,
        run(p, 8).len() == run(p, 7).len() + p[7].len(),
        run(p, 9).len() == run(p, 8).len() + 2,
        run(p, 10).len() == run(p, 9).len() + p[9].len(),
        run(p, 11).len() == run(p, 10).len() + 2,
{
    assert(run(p, 0).len() == 0);
    assert(run(p, 1).len() == 4);
    assert(run(p, 2).len() == 8);
    assert(run(p, 3).len() == 8 + p[2].len());
    assert(run(p, 4).len() == run(p, 3).len() + 2);
    assert(run(p, 5).len() == run(p, 4).len() + 4);
    assert(run(p, 6).len() == run(p, 5).len() + p[5].len());
    assert(run(p, 7).len() == run(p, 6).len() + 2);
    assert(run(p, 8).len() == run(p, 7).len() + p[7].len());
    assert(run(p, 9).len() == run(p, 8).len() + 2);
    assert(run(p, 10).len() == run(p, 9).len() + p[9].len());
    assert(run(p, 11).len() == run(p, 10).len() + 2);
}

/// The counts are read where they were laid out.
proof fn counts_in_place(p: Seq<Seq<u8>>, i: int, n: int)
    requires
        0 <= i < 12,
        0 <= n < 0x1_0000,
        p[i] == bytes16(n),
    ensures
        le16(run(p, 12), run(p, i as nat).len() as int) == n,
{
    section_in_place(p, i);
    u16_reads_back(run(p, i as nat), n, behind(p, 12, i, Seq::empty()));
}

/// Where the modes of a laid out controller start, and how many there are.
proof fn mode_section_in_place(p: Seq<Seq<u8>>, texts: Seq<Seq<char>>, n: int)
    requires
        texts.len() == 6,
        forall|k: int| 0 <= k < 6 ==> fits(#[trigger] texts[k]),
        run(p, 2).len() == 8,
        run(p, 3).len() == 8 + p[2].len(),
        p[2] == run(text_records(texts), 6),
        p[3] == bytes16(n),
        0 <= n < 0x1_0000,
    ensures
        mode_section(run(p, 12)) == run(p, 3).len(),
        mode_count(run(p, 12)) == n,
{
    section_in_place(p, 2);
    texts_in_place(run(p, 2), texts, behind(p, 12, 2, Seq::empty()), 6);
    counts_in_place(p, 3, n);
}

/// The texts of a laid out controller are read in their own places.
proof fn head_texts_in_place(p: Seq<Seq<u8>>, texts: Seq<Seq<char>>)
    requires
        texts.len() == 6,
        forall|k: int| 0 <= k < 6 ==> fits(#[trigger] texts[k]),
        run(p, 2).len() == 8,
        p[2] == run(text_records(texts), 6),
    ensures
        text_at(run(p, 12), 8) == texts[0],
        text_at(run(p, 12), texts_end(run(p, 12), 8, 1)) == texts[1],
        text_at(run(p, 12), texts_end(run(p, 12), 8, 2)) == texts[2],
        text_at(run(p, 12), texts_end(run(p, 12), 8, 4)) == texts[4],
        text_at(run(p, 12), texts_end(run(p, 12), 8, 5)) == texts[5],
{
    let rest = behind(p, 12, 2, Seq::empty());
    section_in_place(p, 2);
    texts_in_place(run(p, 2), texts, rest, 0);
    texts_in_place(run(p, 2), texts, rest, 1);
    texts_in_place(run(p, 2), texts, rest, 2);
    texts_in_place(run(p, 2), texts, rest, 4);
    texts_in_place(run(p, 2), texts, rest, 5);
}

/// A signed number is read where it was laid out.
proof fn numbers_in_place(p: Seq<Seq<u8>>, i: int, v: i32)
    requires
        0 <= i < 12,
        p[i] == bytes32(pattern(v as int)),
    ensures
        signed(le32(run(p, 12), run(p, i as nat).len() as int)) == v,
{
    section_in_place(p, i);
    i32_reads_back(run(p, i as nat), v, behind(p, 12, i, Seq::empty()));
}

/// Where a laid out controller's sections are found, and how much they hold.
proof fn sections_in_place(c: Controller, size: u32, active: i32, version: Seq<char>, value: u32)
    requires
        controller_fits(c, version),
    ensures
        ({
            let p = sections(c, size, active, version, value);
            let b = run(p, 12);
            &&& run(p, 1).len() == 4
            &&& run(p, 2).len() == 8
            &&& mode_section(b) == run(p, 3).len()
            &&& mode_section(b) + 2 == run(p, 4).len()
            &&& mode_section(b) + 6 == run(p, 5).len()
            &&& mode_count(b) == c.modes@.len()
            &&& zone_section(b) == run(p, 6).len()
            &&& zone_section(b) + 2 == run(p, 7).len()
            &&& zone_count(b) == c.zones@.len()
            &&& led_section(b) == run(p, 8).len()
            &&& led_section(b) + 2 == run(p, 9).len()
            &&& le16(b, led_section(b)) == c.leds@.len()
            &&& color_section(b) == run(p, 10).len()
            &&& color_section(b) + 2 == run(p, 11).len()
            &&& le16(b, color_section(b)) == c.colors@.len()
        }),
{
    let p = sections(c, size, active, version, value);
    let none = Seq::<u8>::empty();
    section_starts(p);
    mode_section_in_place(p, head_texts(c, version), c.modes@.len() as int);
    section_in_place(p, 5);
    modes_in_place(run(p, 5), c.modes@, behind(p, 12, 5, none), c.modes@.len());
    counts_in_place(p, 6, c.zones@.len() as int);
    section_in_place(p, 7);
    zones_in_place(run(p, 7), c.zones@, behind(p, 12, 7, none), c.zones@.len());
    counts_in_place(p, 8, c.leds@.len() as int);
    section_in_place(p, 9);
    leds_in_place(run(p, 9), c.leds@, value, behind(p, 12, 9, none), c.leds@.len());
    counts_in_place(p, 10, c.colors@.len() as int);
}

/// What was laid out is what is read: a description laid out for a controller
/// describes its own device type and texts, each in its own place, and the mode
/// that was marked active.
pub proof fn heads_read_back(
    c: Controller,
    size: u32,
    active: i32,
    version: Seq<char>,
    value: u32,
    index: u32,
    d: Controller,
)
    requires
        controller_fits(c, version),
        describes(laid_out(c, size, active, version, value), index, d),
    ensures
        d.index == index,
        d.dev_type == c.dev_type,
        d.name@ == c.name@,
        d.vendor@ == c.vendor@,
        d.description@ == c.description@,
        d.serial@ == c.serial@,
        d.location@ == c.location@,
        d.active_mode == (if active > 0 {
            active as int
        } else {
            0
        }),
        d.modes@.len() == c.modes@.len(),
        d.zones@.len() == c.zones@.len(),
        d.leds@.len() == c.leds@.len(),
        d.led_count == c.leds@.len(),
        d.colors@.len() == c.colors@.len(),
{
    let p = sections(c, size, active, version, value);
    sections_in_place(c, size, active, version, value);
    numbers_in_place(p, 1, c.dev_type);
    head_texts_in_place(p, head_texts(c, version));
    numbers_in_place(p, 4, active);
}

/// What was laid out is what is read, mode by mode.
pub proof fn modes_read_back(
    c: Controller,
    size: u32,
    active: i32,
    version: Seq<char>,
    value: u32,
    index: u32,
    d: Controller,
    i: int,
)
    requires
        controller_fits(c, version),
        describes(laid_out(c, size, active, version, value), index, d),
        0 <= i < c.modes@.len(),
    ensures
        i < d.modes@.len(),
        ({
            let m = d.modes@[i];
            let n = c.modes@[i];
            &&& m.index == i
            &&& m.name@ == n.name@
            &&& m.value == n.value
            &&& m.flags == n.flags
            &&& m.speed_min == n.speed_min && m.speed_max == n.speed_max && m.speed == n.speed
            &&& m.brightness_min == n.brightness_min && m.brightness_max == n.brightness_max
                && m.brightness == n.brightness
            &&& m.colors_min == n.colors_min && m.colors_max == n.colors_max
            &&& m.direction == n.direction
            &&& m.color_mode == n.color_mode
            &&& m.colors@ == n.colors@
        }),
{
    let p = sections(c, size, active, version, value);
    let b = run(p, 12);
    sections_in_place(c, size, active, version, value);
    section_in_place(p, 5);
    modes_in_place(run(p, 5), c.modes@, behind(p, 12, 5, Seq::empty()), i as nat);
    assert(mode_at(d.modes@[i], i, b, modes_end(b, mode_section(b) + 6, i as nat)));
    assert(d.modes@[i].colors@ =~= c.modes@[i].colors@);
}

/// What was laid out is what is read, zone by zone, the matrix included; and a
/// zone starts where the zones before it end.
pub proof fn zones_read_back(
    c: Controller,
    size: u32,
    active: i32,
    version: Seq<char>,
    value: u32,
    index: u32,
    d: Controller,
    i: int,
)
    requires
        controller_fits(c, version),
        describes(laid_out(c, size, active, version, value), index, d),
        0 <= i < c.zones@.len(),
    ensures
        i < d.zones@.len(),
        ({
            let y = d.zones@[i];
            let z = c.zones@[i];
            &&& y.name@ == z.name@
            &&& y.kind == z.kind
            &&& y.leds_min == z.leds_min
            &&& y.leds_max == z.leds_max
            &&& y.leds_count == z.leds_count
            &&& i == 0 ==> y.start == 0
            &&& i > 0 ==> y.start == d.zones@[i - 1].start + d.zones@[i - 1].leds_count
            &&& y.matrix is Some <==> z.matrix is Some
            &&& y.matrix matches Some(m) ==> (z.matrix matches Some(n) ==> m.height == n.height
                && m.width == n.width && m.map@ == n.map@)
        }),
{
    let p = sections(c, size, active, version, value);
    let b = run(p, 12);
    sections_in_place(c, size, active, version, value);
    section_in_place(p, 7);
    zones_in_place(run(p, 7), c.zones@, behind(p, 12, 7, Seq::empty()), i as nat);
    let at = zones_end(b, zone_section(b) + 2, i as nat);
    assert(zone_at(d.zones@[i], zones_leds(b, zone_section(b) + 2, i as nat), b, at));
    if i > 0 {
        let before = (i - 1) as nat;
        assert(zone_at(
            d.zones@[i - 1],
            zones_leds(b, zone_section(b) + 2, before),
            b,
            zones_end(b, zone_section(b) + 2, before),
        ));
    }
    if let (Some(m), Some(n)) = (d.zones@[i].matrix, c.zones@[i].matrix) {
        assert(m.map@.len() == n.map@.len());
        assert forall|k: int| 0 <= k < m.map@.len() implies #[trigger] m.map@[k] == n.map@[k] by {
            assert(n.map@[k] == cell_of(le32(b, text_end(b, at) + 26 + 4 * k)));
        }
        assert(m.map@ =~= n.map@);
    }
}

/// What was laid out is what is read, LED by LED and color by color.
pub proof fn leds_and_colors_read_back(
    c: Controller,
    size: u32,
    active: i32,
    version: Seq<char>,
    value: u32,
    index: u32,
    d: Controller,
    i: int,
)
    requires
        controller_fits(c, version),
        describes(laid_out(c, size, active, version, value), index, d),
    ensures
        0 <= i < c.leds@.len() ==> i < d.leds@.len() && d.leds@[i]@ == c.leds@[i]@,
        0 <= i < c.colors@.len() ==> i < d.colors@.len() && d.colors@[i] == c.colors@[i],
{
    let p = sections(c, size, active, version, value);
    let none = Seq::<u8>::empty();
    sections_in_place(c, size, active, version, value);
    if 0 <= i < c.leds@.len() {
        section_in_place(p, 9);
        leds_in_place(run(p, 9), c.leds@, value, behind(p, 12, 9, none), i as nat);
    }
    if 0 <= i < c.colors@.len() {
        section_in_place(p, 11);
        words_read_back(run(p, 11), color_words(c.colors@), behind(p, 12, 11, none), i);
        packed_colors_unpack(c.colors@[i]);
        packed_color_bytes(c.colors@[i]);
    }
}

} // verus!

//! Text helpers with exact contracts: number rendering, comparison, search.

use vstd::prelude::*;

verus! {

/// `String::push` appends the given `char` to the end of the string.
pub assume_specification[ String::push ](s: &mut String, c: char)
    ensures
        final(s)@ == old(s)@.push(c),
;

// ---------------------------------------------------------------- numbers

/// One digit in base 16, upper case (and so in base 10 below ten).
pub open spec fn digit(d: int) -> char {
    (if d < 10 {
        48 + d
    } else {
        55 + d
    }) as char
}

/// A natural number in decimal, without leading zeros.
pub open spec fn decimal(n: nat) -> Seq<char>
    decreases n,
{
    if n < 10 {
        seq![digit(n as int)]
    } else {
        decimal(n / 10).push(digit((n % 10) as int))
    }
}

/// A natural number in upper-case hexadecimal, without leading zeros.
pub open spec fn hexadecimal(n: nat) -> Seq<char>
    decreases n,
{
    if n < 16 {
        seq![digit(n as int)]
    } else {
        hexadecimal(n / 16).push(digit((n % 16) as int))
    }
}

/// The low `width` hexadecimal digits of a number, zero padded on the left.
pub open spec fn hex_padded(n: nat, width: nat) -> Seq<char>
    decreases width,
{
    if width == 0 {
        Seq::empty()
    } else {
        hex_padded(n / 16, (width - 1) as nat).push(digit((n % 16) as int))
    }
}

fn digit_char(d: u8) -> (c: char)
    requires
        d < 16,
    ensures
        c == digit(d as int),
{
    if d < 10 {
        (48 + d) as char
    } else {
        (55 + d) as char
    }
}

/// Appends `n` in decimal.
pub fn push_decimal(out: &mut String, n: u128)
    ensures
        final(out)@ == old(out)@ + decimal(n as nat),
    decreases n,
{
    if n >= 10 {
        push_decimal(out, n / 10);
    }
    out.push(digit_char((n % 10) as u8));
    assert(out@ =~= old(out)@ + decimal(n as nat));
}

/// Decimal digits read back: two numbers with the same digits are equal.
pub proof fn decimals_differ(a: nat, b: nat)
    requires
        decimal(a) == decimal(b),
    ensures
        a == b,
    decreases a,
{
    let x = decimal(a);
    let y = decimal(b);
    decimal_is_not_empty(a / 10);
    decimal_is_not_empty(b / 10);
    assert(x.last() == digit((a % 10) as int));
    assert(y.last() == digit((b % 10) as int));
    if a >= 10 {
        assert(x.drop_last() =~= decimal(a / 10));
        assert(b >= 10);
        assert(y.drop_last() =~= decimal(b / 10));
        decimals_differ(a / 10, b / 10);
    } else if b >= 10 {
        assert(y.drop_last() =~= decimal(b / 10));
    }
}

proof fn decimal_is_not_empty(n: nat)
    ensures
        decimal(n).len() > 0,
{
}

/// Appends `n` in upper-case hexadecimal.
pub fn push_hex(out: &mut String, n: u64)
    ensures
        final(out)@ == old(out)@ + hexadecimal(n as nat),
    decreases n,
{
    if n >= 16 {
        push_hex(out, n / 16);
    }
    out.push(digit_char((n % 16) as u8));
    assert(out@ =~= old(out)@ + hexadecimal(n as nat));
}

/// Appends the low `width` hexadecimal digits of `n`, zero padded.
pub fn push_hex_padded(out: &mut String, n: u64, width: u8)
    ensures
        final(out)@ == old(out)@ + hex_padded(n as nat, width as nat),
    decreases width,
{
    if width > 0 {
        push_hex_padded(out, n / 16, width - 1);
        out.push(digit_char((n % 16) as u8));
    }
    assert(out@ =~= old(out)@ + hex_padded(n as nat, width as nat));
}

/// Bytes as two-digit hexadecimal groups with one space between groups.
pub open spec fn spaced_hex(bytes: Seq<u8>) -> Seq<char>
    decreases bytes.len(),
{
    if bytes.len() == 0 {
        Seq::empty()
    } else if bytes.len() == 1 {
        hex_padded(bytes[0] as nat, 2)
    } else {
        spaced_hex(bytes.drop_last()) + seq![' '] + hex_padded(bytes.last() as nat, 2)
    }
}

/// Appends bytes as two-digit hexadecimal groups with one space between groups.
pub fn push_spaced_hex(out: &mut String, bytes: &[u8])
    ensures
        final(out)@ == old(out)@ + spaced_hex(bytes@),
{
    let mut i: usize = 0;
    assert(bytes@.take(0).len() == 0);
    assert(out@ =~= old(out)@ + spaced_hex(bytes@.take(0)));
    while i < bytes.len()
        invariant
            i <= bytes@.len(),
            out@ == old(out)@ + spaced_hex(bytes@.take(i as int)),
        decreases bytes@.len() - i,
    {
        if i > 0 {
            out.push(' ');
        }
        push_hex_padded(out, bytes[i] as u64, 2);
        proof {
            let next = bytes@.take(i + 1);
            assert(next.drop_last() =~= bytes@.take(i as int));
            assert(out@ =~= old(out)@ + spaced_hex(next));
        }
        i += 1;
    }
    assert(bytes@.take(i as int) =~= bytes@);
}

// ------------------------------------------------------------- comparison

/// The characters of a string, in order.
pub fn chars_of(s: &str) -> (r: Vec<char>)
    ensures
        r@ == s@,
{
    let mut out: Vec<char> = Vec::new();
    for c in it: s.chars()
        invariant
            out@ == it.seq().take(it.index() as int),
            it.seq() == s@,
    {
        out.push(c);
    }
    out
}

/// Whether two strings hold the same characters.
pub fn same(a: &str, b: &str) -> (r: bool)
    ensures
        r == (a@ == b@),
{
    a.to_owned() == b.to_owned()
}

/// An ASCII upper-case letter in lower case; any other character as it is.
pub open spec fn ascii_lower(c: char) -> char {
    if 'A' <= c && c <= 'Z' {
        (c as int + 32) as char
    } else {
        c
    }
}

/// Equality up to the case of ASCII letters.
pub open spec fn same_ignoring_case(a: Seq<char>, b: Seq<char>) -> bool {
    &&& a.len() == b.len()
    &&& forall|i: int| 0 <= i < a.len() ==> ascii_lower(#[trigger] a[i]) == ascii_lower(b[i])
}

fn lower_char(c: char) -> (r: char)
    ensures
        r == ascii_lower(c),
{
    if 'A' <= c && c <= 'Z' {
        (c as u8 + 32) as char
    } else {
        c
    }
}

/// Whether two strings are equal up to the case of ASCII letters.
pub fn eq_ignore_case(a: &str, b: &str) -> (r: bool)
    ensures
        r == same_ignoring_case(a@, b@),
{
    let x = chars_of(a);
    let y = chars_of(b);
    if x.len() != y.len() {
        return false;
    }
    let mut i: usize = 0;
    while i < x.len()
        invariant
            i <= x@.len(),
            x@.len() == y@.len(),
            x@ == a@,
            y@ == b@,
            forall|j: int| 0 <= j < i ==> ascii_lower(#[trigger] a@[j]) == ascii_lower(b@[j]),
        decreases x@.len() - i,
    {
        if lower_char(x[i]) != lower_char(y[i]) {
            assert(ascii_lower(a@[i as int]) != ascii_lower(b@[i as int]));
            return false;
        }
        i += 1;
    }
    true
}

// ----------------------------------------------------------------- search

/// Whether `needle` stands in `hay` at position `i`.
pub open spec fn occurs_at(hay: Seq<char>, needle: Seq<char>, i: int) -> bool {
    &&& 0 <= i
    &&& i + needle.len() <= hay.len()
    &&& hay.subrange(i, i + needle.len()) == needle
}

/// Whether `needle` stands anywhere in `hay`.
pub open spec fn contains_text(hay: Seq<char>, needle: Seq<char>) -> bool {
    exists|i: int| occurs_at(hay, needle, i)
}

/// Whether the characters of `needle` stand in `hay` from position `i` on, one
/// by one.
pub open spec fn spells(hay: Seq<char>, i: int, needle: Seq<char>) -> bool {
    &&& 0 <= i
    &&& i + needle.len() <= hay.len()
    &&& forall|k: int| 0 <= k < needle.len() ==> hay[i + k] == #[trigger] needle[k]
}

/// A text occurs where its characters stand one by one, and nowhere else.
pub proof fn occurrences_spell(hay: Seq<char>, needle: Seq<char>, i: int)
    ensures
        occurs_at(hay, needle, i) <==> spells(hay, i, needle),
{
    if occurs_at(hay, needle, i) {
        let part = hay.subrange(i, i + needle.len());
        assert forall|k: int| 0 <= k < needle.len() implies hay[i + k] == #[trigger] needle[k] by {
            assert(part[k] == hay[i + k]);
        }
    }
    if spells(hay, i, needle) {
        assert(hay.subrange(i, i + needle.len()) =~= needle);
    }
}

/// A text that was joined from parts contains each of them, and contains nothing
/// longer than itself.
pub proof fn joined_texts_contain_their_parts(a: Seq<char>, b: Seq<char>, c: Seq<char>)
    ensures
        contains_text(a + b + c, b),
        contains_text(a, b) ==> b.len() <= a.len(),
{
    let hay = a + b + c;
    assert(hay.subrange(a.len() as int, (a.len() + b.len()) as int) =~= b);
    assert(occurs_at(hay, b, a.len() as int));
}

/// What a text contains, a longer one contains too.
pub(crate) proof fn contained_in_a_longer_text(hay: Seq<char>, part: Seq<char>, more: Seq<char>)
    requires
        contains_text(hay, part),
    ensures
        contains_text(hay + more, part),
{
    let i = choose|i: int| occurs_at(hay, part, i);
    let t = hay + more;
    assert(t.subrange(i, (i + part.len()) as int) =~= hay.subrange(i, (i + part.len()) as int));
    assert(occurs_at(t, part, i));
}

fn stands_at(hay: &Vec<char>, needle: &Vec<char>, at: usize) -> (r: bool)
    requires
        at <= hay@.len(),
    ensures
        r == occurs_at(hay@, needle@, at as int),
{
    let total: usize = hay.len();
    if needle.len() > total - at {
        return false;
    }
    let mut i: usize = 0;
    while i < needle.len()
        invariant
            i <= needle@.len(),
            total == hay@.len(),
            at + needle@.len() <= total,
            forall|j: int| 0 <= j < i ==> hay@[at + j] == #[trigger] needle@[j],
        decreases needle@.len() - i,
    {
        if hay[at + i] != needle[i] {
            assert(hay@.subrange(at as int, at + needle@.len())[i as int] != needle@[i as int]);
            return false;
        }
        i += 1;
    }
    assert(hay@.subrange(at as int, at + needle@.len()) =~= needle@);
    true
}

/// Whether `needle` stands anywhere in `hay`.
pub fn contains(hay: &str, needle: &str) -> (r: bool)
    ensures
        r == contains_text(hay@, needle@),
{
    let h = chars_of(hay);
    let n = chars_of(needle);
    if n.len() > h.len() {
        return false;
    }
    let last: usize = h.len() - n.len();
    let mut i: usize = 0;
    while i <= last
        invariant
            h@ == hay@,
            n@ == needle@,
            n@.len() <= h@.len(),
            last == h@.len() - n@.len(),
            i <= last + 1,
            forall|j: int| 0 <= j < i ==> !occurs_at(hay@, needle@, j),
        decreases last + 1 - i,
    {
        if stands_at(&h, &n, i) {
            return true;
        }
        if i == last {
            return false;
        }
        i += 1;
    }
    false
}

/// Whether `hay` begins with `needle`.
pub fn starts_with(hay: &str, needle: &str) -> (r: bool)
    ensures
        r == occurs_at(hay@, needle@, 0),
{
    let h = chars_of(hay);
    let n = chars_of(needle);
    stands_at(&h, &n, 0)
}

// --------------------------------------------------------------- trimming

/// Whether a character has Unicode's `White_Space` property.
pub open spec fn white_space(c: char) -> bool {
    let v = c as u32;
    ||| 0x09 <= v <= 0x0D
    ||| v == 0x20 || v == 0x85 || v == 0xA0 || v == 0x1680
    ||| 0x2000 <= v <= 0x200A
    ||| v == 0x2028 || v == 0x2029 || v == 0x202F || v == 0x205F || v == 0x3000
}

/// `char::is_whitespace` tells whether a character has the `White_Space`
/// property; the property's members are claimed to be those listed.
pub assume_specification[ char::is_whitespace ](c: char) -> (r: bool)
    ensures
        r == white_space(c),
;

/// A text without leading white space.
pub open spec fn trimmed_start(s: Seq<char>) -> Seq<char>
    decreases s.len(),
{
    if s.len() > 0 && white_space(s[0]) {
        trimmed_start(s.skip(1))
    } else {
        s
    }
}

/// A text without trailing white space.
pub open spec fn trimmed_end(s: Seq<char>) -> Seq<char>
    decreases s.len(),
{
    if s.len() > 0 && white_space(s.last()) {
        trimmed_end(s.drop_last())
    } else {
        s
    }
}

/// A text without leading and trailing white space.
pub open spec fn trimmed(s: Seq<char>) -> Seq<char> {
    trimmed_end(trimmed_start(s))
}

/// A text without any number of copies of a suffix at its end.
pub open spec fn without_suffix(s: Seq<char>, suffix: Seq<char>) -> Seq<char>
    decreases s.len(),
{
    if suffix.len() > 0 && occurs_at(s, suffix, s.len() - suffix.len()) {
        without_suffix(s.take(s.len() - suffix.len()), suffix)
    } else {
        s
    }
}

/// The characters from `from` to `to` as a string.
pub fn text_of_chars(chars: &Vec<char>, from: usize, to: usize) -> (r: String)
    requires
        from <= to <= chars@.len(),
    ensures
        r@ == chars@.subrange(from as int, to as int),
{
    let mut out = String::new();
    let mut i: usize = from;
    while i < to
        invariant
            from <= i <= to <= chars@.len(),
            out@ == chars@.subrange(from as int, i as int),
        decreases to - i,
    {
        out.push(chars[i]);
        assert(out@ =~= chars@.subrange(from as int, i + 1));
        i += 1;
    }
    out
}

/// A text without leading and trailing white space.
pub fn trim(s: &str) -> (r: String)
    ensures
        r@ == trimmed(s@),
{
    let chars = chars_of(s);
    let n: usize = chars.len();
    let mut from: usize = 0;
    assert(chars@.skip(0) =~= chars@);
    while from < n && chars[from].is_whitespace()
        invariant
            n == chars@.len(),
            from <= n,
            trimmed_start(chars@) == trimmed_start(chars@.skip(from as int)),
        decreases n - from,
    {
        assert(chars@.skip(from as int).skip(1) =~= chars@.skip(from + 1));
        from += 1;
    }
    let ghost body = chars@.skip(from as int);
    assert(trimmed_start(chars@) == body);
    let mut to: usize = n;
    assert(chars@.subrange(from as int, n as int) =~= body);
    while to > from && chars[to - 1].is_whitespace()
        invariant
            n == chars@.len(),
            from <= to <= n,
            trimmed_end(body) == trimmed_end(chars@.subrange(from as int, to as int)),
        decreases to - from,
    {
        let ghost now = chars@.subrange(from as int, to as int);
        assert(now.last() == chars@[to - 1]);
        assert(now.drop_last() =~= chars@.subrange(from as int, to - 1));
        to -= 1;
    }
    proof {
        let now = chars@.subrange(from as int, to as int);
        if to > from {
            assert(now.last() == chars@[to - 1]);
        }
    }
    text_of_chars(&chars, from, to)
}

/// Whether a text is nothing but white space.
pub fn is_blank(s: &str) -> (r: bool)
    ensures
        r == (trimmed(s@).len() == 0),
{
    let t = trim(s);
    t.as_str().unicode_len() == 0
}

/// A text without any number of copies of a suffix at its end.
pub fn strip_suffixes(s: &str, suffix: &str) -> (r: String)
    ensures
        r@ == without_suffix(s@, suffix@),
{
    let chars = chars_of(s);
    let tail = chars_of(suffix);
    let mut end: usize = chars.len();
    if tail.len() == 0 {
        assert(chars@.subrange(0, chars@.len() as int) =~= chars@);
        return text_of_chars(&chars, 0, end);
    }
    assert(chars@.take(end as int) =~= chars@);
    loop
        invariant
            end <= chars@.len(),
            tail@.len() > 0,
            chars@ == s@,
            tail@ == suffix@,
            without_suffix(s@, suffix@) == without_suffix(chars@.take(end as int), suffix@),
        ensures
            end <= chars@.len(),
            without_suffix(s@, suffix@) == chars@.take(end as int),
        decreases end,
    {
        if tail.len() > end {
            break;
        }
        let at: usize = end - tail.len();
        let ghost now = chars@.take(end as int);
        let found = stands_at(&chars, &tail, at);
        assert(chars@.subrange(at as int, end as int) =~= now.subrange(at as int, end as int));
        if !found {
            break;
        }
        assert(now.take(at as int) =~= chars@.take(at as int));
        end = at;
    }
    assert(chars@.subrange(0, end as int) =~= chars@.take(end as int));
    text_of_chars(&chars, 0, end)
}

/// What follows a prefix, where a text begins with it.
pub fn after_prefix(s: &str, prefix: &str) -> (r: Option<String>)
    ensures
        match r {
            Some(rest) => occurs_at(s@, prefix@, 0) && rest@ == s@.skip(prefix@.len() as int),
            None => !occurs_at(s@, prefix@, 0),
        },
{
    let chars = chars_of(s);
    let head = chars_of(prefix);
    if !stands_at(&chars, &head, 0) {
        return None;
    }
    let n: usize = chars.len();
    assert(chars@.subrange(head@.len() as int, n as int) =~= chars@.skip(head@.len() as int));
    Some(text_of_chars(&chars, head.len(), n))
}

// -------------------------------------------------------------------- laws

/// A number's decimal ends in its last digit, and what stands before that is the
/// decimal of a tenth of it; a number below ten is its digit alone.
pub proof fn decimals_are_positional(n: nat)
    ensures
        decimal(n).len() > 0,
        decimal(n).last() as int == '0' as int + n % 10,
        n >= 10 ==> decimal(n).drop_last() == decimal(n / 10),
        n < 10 ==> decimal(n).len() == 1,
{
    if n >= 10 {
        assert(decimal(n).drop_last() =~= decimal(n / 10));
    }
}

/// A number's hexadecimal likewise, with the letters from A on for the digits
/// above nine; padded, it has the width that was asked for.
pub proof fn hexadecimals_are_positional(n: nat, width: nat)
    ensures
        hexadecimal(n).len() > 0,
        n % 16 < 10 ==> hexadecimal(n).last() as int == '0' as int + n % 16,
        n % 16 >= 10 ==> hexadecimal(n).last() as int == 'A' as int + n % 16 - 10,
        n >= 16 ==> hexadecimal(n).drop_last() == hexadecimal(n / 16),
        n < 16 ==> hexadecimal(n).len() == 1,
        hex_padded(n, width).len() == width,
        width > 0 ==> hex_padded(n, width).last() == hexadecimal(n).last(),
        width > 0 ==> hex_padded(n, width).drop_last() == hex_padded(n / 16, (width - 1) as nat),
    decreases width,
{
    if n >= 16 {
        assert(hexadecimal(n).drop_last() =~= hexadecimal(n / 16));
    }
    if width > 0 {
        hexadecimals_are_positional(n / 16, (width - 1) as nat);
        assert(hex_padded(n, width).drop_last() =~= hex_padded(n / 16, (width - 1) as nat));
    }
}

/// Bytes in hexadecimal take two digits each and one space between them.
pub proof fn spaced_bytes_take_three_places(bytes: Seq<u8>, i: int)
    requires
        0 <= i < bytes.len(),
    ensures
        spaced_hex(bytes).len() == 3 * bytes.len() - 1,
        spaced_hex(bytes).subrange(3 * i, 3 * i + 2) == hex_padded(bytes[i] as nat, 2),
        i + 1 < bytes.len() ==> spaced_hex(bytes)[3 * i + 2] == ' ',
    decreases bytes.len(),
{
    let n = bytes.len();
    let t = spaced_hex(bytes);
    hexadecimals_are_positional(bytes[n - 1] as nat, 2);
    if n == 1 {
        assert(t.subrange(0, 2) =~= hex_padded(bytes[0] as nat, 2));
    } else {
        let init = bytes.drop_last();
        let head = spaced_hex(init);
        spaced_bytes_take_three_places(init, if i < n - 1 { i } else { 0 });
        assert(t =~= head + seq![' '] + hex_padded(bytes[n - 1] as nat, 2));
        if i == n - 1 {
            assert(t.subrange(3 * i, 3 * i + 2) =~= hex_padded(bytes[i] as nat, 2));
        } else {
            assert(init[i] == bytes[i]);
            assert(t.subrange(3 * i, 3 * i + 2) =~= head.subrange(3 * i, 3 * i + 2));
        }
    }
}

/// Letters of the two cases are the same letter, and nothing else is the same:
/// texts that are equal up to case are as long as each other, and where they
/// differ, one has the capital of the other's letter.
pub proof fn only_the_case_is_ignored(a: Seq<char>, b: Seq<char>, i: int)
    ensures
        same_ignoring_case(a, a),
        same_ignoring_case(a, b) ==> same_ignoring_case(b, a) && a.len() == b.len(),
        same_ignoring_case(a, b) && 0 <= i < a.len() && a[i] != b[i] ==> {
            ||| 'A' <= a[i] <= 'Z' && b[i] as int == a[i] as int + 32
            ||| 'A' <= b[i] <= 'Z' && a[i] as int == b[i] as int + 32
        },
        a.len() == b.len() && (forall|k: int|
            0 <= k < a.len() ==> #[trigger] a[k] == b[k] || ('A' <= a[k] <= 'Z' && b[k] as int == a[k] as int
                + 32) || ('A' <= b[k] <= 'Z' && a[k] as int == b[k] as int + 32))
            ==> same_ignoring_case(a, b),
{
    if same_ignoring_case(a, b) {
        assert forall|k: int| 0 <= k < b.len() implies ascii_lower(#[trigger] b[k]) == ascii_lower(
            a[k],
        ) by {
            assert(ascii_lower(a[k]) == ascii_lower(b[k]));
        }
        if 0 <= i < a.len() {
            assert(ascii_lower(a[i]) == ascii_lower(b[i]));
        }
    }
}

/// Trimming leaves a part of the text that neither begins nor ends with white
/// space, and cuts nothing but white space off.
pub proof fn trimming_cuts_white_space_alone(s: Seq<char>)
    ensures
        ({
            let t = trimmed(s);
            &&& t.len() <= s.len()
            &&& t.len() > 0 ==> !white_space(t[0]) && !white_space(t.last())
            &&& exists|i: int| #[trigger] cut_out(s, i, t)
        }),
{
    let a = trimmed_start(s);
    let t = trimmed_end(a);
    let i = start_is_cut(s);
    let j = end_is_cut(a);
    assert(t =~= s.subrange(i, i + t.len()));
    assert(cut_out(s, i, t)) by {
        assert forall|k: int| i + t.len() <= k < s.len() implies white_space(#[trigger] s[k]) by {
            assert(a[k - i] == s[k]);
        }
    }
    if t.len() > 0 {
        assert(t[0] == a[0]);
    }
}

/// Whether `t` is `s` from position `i` on, and everything around it is white
/// space.
pub open spec fn cut_out(s: Seq<char>, i: int, t: Seq<char>) -> bool {
    &&& 0 <= i
    &&& i + t.len() <= s.len()
    &&& s.subrange(i, i + t.len()) == t
    &&& forall|k: int| 0 <= k < i ==> white_space(#[trigger] s[k])
    &&& forall|k: int| i + t.len() <= k < s.len() ==> white_space(#[trigger] s[k])
}

proof fn start_is_cut(s: Seq<char>) -> (i: int)
    ensures
        0 <= i <= s.len(),
        trimmed_start(s) == s.skip(i),
        forall|k: int| 0 <= k < i ==> white_space(#[trigger] s[k]),
        trimmed_start(s).len() > 0 ==> !white_space(trimmed_start(s)[0]),
    decreases s.len(),
{
    if s.len() > 0 && white_space(s[0]) {
        let i = start_is_cut(s.skip(1));
        assert(s.skip(1).skip(i) =~= s.skip(i + 1));
        assert forall|k: int| 0 <= k < i + 1 implies white_space(#[trigger] s[k]) by {
            if k > 0 {
                assert(s.skip(1)[k - 1] == s[k]);
            }
        }
        i + 1
    } else {
        assert(s.skip(0) =~= s);
        0
    }
}

proof fn end_is_cut(s: Seq<char>) -> (n: int)
    ensures
        0 <= n <= s.len(),
        trimmed_end(s) == s.take(n),
        trimmed_end(s).len() == n,
        forall|k: int| n <= k < s.len() ==> white_space(#[trigger] s[k]),
        n > 0 ==> !white_space(trimmed_end(s).last()),
    decreases s.len(),
{
    if s.len() > 0 && white_space(s.last()) {
        let n = end_is_cut(s.drop_last());
        assert(s.drop_last().take(n) =~= s.take(n));
        assert forall|k: int| n <= k < s.len() implies white_space(#[trigger] s[k]) by {
            if k < s.len() - 1 {
                assert(s.drop_last()[k] == s[k]);
            }
        }
        n
    } else {
        assert(s.take(s.len() as int) =~= s);
        s.len() as int
    }
}

/// Cutting suffixes off cuts them all off, and nothing of a text that does not
/// end in one.
pub proof fn suffixes_are_cut_off(s: Seq<char>, suffix: Seq<char>)
    requires
        suffix.len() > 0,
    ensures
        without_suffix(s + suffix, suffix) == without_suffix(s, suffix),
        !occurs_at(without_suffix(s, suffix), suffix, without_suffix(s, suffix).len() - suffix.len()),
        !occurs_at(s, suffix, s.len() - suffix.len()) ==> without_suffix(s, suffix) == s,
    decreases s.len(),
{
    let t = s + suffix;
    assert(t.subrange(s.len() as int, t.len() as int) =~= suffix);
    assert(occurs_at(t, suffix, t.len() - suffix.len()));
    assert(t.take(t.len() - suffix.len()) =~= s);
    if occurs_at(s, suffix, s.len() - suffix.len()) {
        suffixes_are_cut_off(s.take(s.len() - suffix.len()), suffix);
    }
}

} // verus!

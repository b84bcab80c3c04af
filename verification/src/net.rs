//! Text and number conversions used at the system-call boundary: UTF-16
//! buffers, IPv4 addresses and port numbers.
use vstd::prelude::*;
use crate::text::{
    chars_of, is_scalar, is_whitespace, is_ws, parse_uint, parse_unsigned, push_char, push_uint,
    split_char, split_on, trim_chars, trim_seq, uint_text, views,
};

verus! {

/// The UTF-16 code units of one character.
pub open spec fn utf16_char(c: char) -> Seq<u16> {
    let v = c as nat;
    if v < 0x10000 {
        seq![v as u16]
    } else {
        seq![(0xD800 + (v - 0x10000) / 1024) as u16, (0xDC00 + (v - 0x10000) % 1024) as u16]
    }
}

/// The UTF-16 encoding of a text.
pub open spec fn utf16(s: Seq<char>) -> Seq<u16>
    decreases s.len(),
{
    if s.len() == 0 {
        Seq::empty()
    } else {
        utf16(s.drop_last()) + utf16_char(s.last())
    }
}

fn push_utf16(out: &mut Vec<u16>, c: char)
    ensures
        final(out)@ == old(out)@ + utf16_char(c),
{
    let v = c as u32;
    let ghost before = out@;
    if v < 0x10000 {
        out.push(v as u16);
    } else {
        assert(v <= 0x10FFFF);
        out.push((0xD800 + (v - 0x10000) / 1024) as u16);
        out.push((0xDC00 + (v - 0x10000) % 1024) as u16);
    }
    assert(out@ =~= before + utf16_char(c));
}

/// The UTF-16 code units of a text.
pub fn encode_utf16(text: &str) -> (r: Vec<u16>)
    ensures
        r@ == utf16(text@),
{
    let chars = chars_of(text);
    let mut out: Vec<u16> = Vec::new();
    let mut i: usize = 0;
    while i < chars.len()
        invariant
            i <= chars.len(),
            chars@ == text@,
            out@ == utf16(chars@.take(i as int)),
        decreases chars.len() - i,
    {
        push_utf16(&mut out, chars[i]);
        assert(chars@.take(i + 1).drop_last() =~= chars@.take(i as int));
        i += 1;
    }
    assert(chars@.take(chars.len() as int) =~= chars@);
    out
}

/// A text as a zero-terminated UTF-16 buffer, as the wide Win32 calls take
/// it.
pub fn wide(text: &str) -> (r: Vec<u16>)
    ensures
        r@ == utf16(text@).push(0),
{
    let mut r = encode_utf16(text);
    r.push(0);
    r
}

pub open spec fn is_high(u: u16) -> bool {
    0xD800 <= u && u <= 0xDBFF
}

pub open spec fn is_low(u: u16) -> bool {
    0xDC00 <= u && u <= 0xDFFF
}

/// UTF-16 decoding that puts U+FFFD in place of each unpaired surrogate,
/// as `String::from_utf16_lossy` does.
pub open spec fn utf16_lossy(u: Seq<u16>) -> Seq<char>
    decreases u.len(),
{
    if u.len() == 0 {
        Seq::empty()
    } else if !is_high(u[0]) && !is_low(u[0]) {
        seq![(u[0] as nat) as char] + utf16_lossy(u.skip(1))
    } else if is_high(u[0]) && u.len() > 1 && is_low(u[1]) {
        seq![
            (0x10000 + (u[0] as nat - 0xD800) * 1024 + (u[1] as nat - 0xDC00)) as char,
        ] + utf16_lossy(u.skip(2))
    } else {
        seq!['\u{FFFD}'] + utf16_lossy(u.skip(1))
    }
}

/// The units before the first zero.
pub open spec fn until_zero(u: Seq<u16>) -> Seq<u16>
    decreases u.len(),
{
    if u.len() == 0 {
        Seq::empty()
    } else if u[0] == 0 {
        Seq::empty()
    } else {
        seq![u[0]] + until_zero(u.skip(1))
    }
}

fn code_to_char(v: u32) -> (c: char)
    requires
        is_scalar(v as nat),
    ensures
        c == v as char,
{
    match crate::text::char_from_u32(v) {
        Some(c) => c,
        None => '\u{FFFD}',
    }
}

/// Decodes UTF-16, an unpaired surrogate giving U+FFFD.
pub fn decode_utf16_lossy(u: &[u16], end: usize) -> (r: String)
    requires
        end <= u.len(),
    ensures
        r@ == utf16_lossy(u@.take(end as int)),
{
    let ghost s = u@.take(end as int);
    let mut out = String::new();
    let mut i: usize = 0;
    assert(s.skip(0) =~= s);
    assert(out@ + utf16_lossy(s) =~= utf16_lossy(s));
    while i < end
        invariant
            i <= end <= u.len(),
            s == u@.take(end as int),
            out@ + utf16_lossy(s.skip(i as int)) == utf16_lossy(s),
        decreases end - i,
    {
        let ghost rest = s.skip(i as int);
        let a = u[i];
        assert(rest[0] == a);
        if !(0xD800 <= a && a <= 0xDFFF) {
            push_char(&mut out, code_to_char(a as u32));
            assert(rest.skip(1) =~= s.skip(i + 1));
            i += 1;
        } else if a <= 0xDBFF && i + 1 < end && 0xDC00 <= u[i + 1] && u[i + 1] <= 0xDFFF {
            let b = u[i + 1];
            assert(rest[1] == b);
            let v = 0x10000 + (a as u32 - 0xD800) * 1024 + (b as u32 - 0xDC00);
            push_char(&mut out, code_to_char(v));
            assert(rest.skip(2) =~= s.skip(i + 2));
            i += 2;
        } else {
            push_char(&mut out, '\u{FFFD}');
            assert(rest.skip(1) =~= s.skip(i + 1));
            i += 1;
        }
    }
    assert(s.skip(end as int) =~= Seq::<u16>::empty());
    out
}

proof fn lemma_until_zero(u: Seq<u16>, i: int)
    requires
        0 <= i <= u.len(),
        forall|k: int| 0 <= k < i ==> u[k] != 0,
        i == u.len() || u[i] == 0,
    ensures
        until_zero(u) == u.take(i),
    decreases u.len(),
{
    if u.len() > 0 && u[0] != 0 {
        lemma_until_zero(u.skip(1), i - 1);
        assert(u.take(i) =~= seq![u[0]] + u.skip(1).take(i - 1));
    } else if u.len() > 0 {
        assert(u.take(i) =~= Seq::<u16>::empty());
    }
}

/// The text in a fixed-size UTF-16 buffer, up to its first zero.
pub fn from_wide(buffer: &[u16]) -> (r: String)
    ensures
        r@ == utf16_lossy(until_zero(buffer@)),
{
    let mut end: usize = 0;
    while end < buffer.len() && buffer[end] != 0
        invariant
            end <= buffer.len(),
            forall|k: int| 0 <= k < end ==> buffer@[k] != 0,
        decreases buffer.len() - end,
    {
        end += 1;
    }
    proof {
        lemma_until_zero(buffer@, end as int);
    }
    decode_utf16_lossy(buffer, end)
}

/// Writes a text into a fixed-size UTF-16 buffer: as many units as fit
/// before a final zero, then zeros to the end.
pub open spec fn written_wide(len: nat, text: Seq<char>) -> Seq<u16> {
    let units = utf16(text);
    let n = if len == 0 {
        0
    } else if units.len() < len - 1 {
        units.len()
    } else {
        (len - 1) as nat
    };
    if len == 0 {
        Seq::empty()
    } else {
        units.take(n as int) + Seq::new((len - n) as nat, |i: int| 0u16)
    }
}

pub fn write_wide(target: &mut [u16], text: &str)
    ensures
        final(target)@ == written_wide(old(target)@.len(), text@),
{
    if target.len() == 0 {
        assert(target@ =~= written_wide(0, text@));
        return;
    }
    let units = encode_utf16(text);
    let len = target.len();
    let mut index: usize = 0;
    while index < units.len() && index + 1 < len
        invariant
            index <= units.len(),
            index < len,
            target@.len() == len,
            forall|k: int| 0 <= k < index ==> target@[k] == units@[k],
        decreases units.len() - index,
    {
        target[index] = units[index];
        index += 1;
    }
    let n = index;
    let mut k: usize = n;
    while k < len
        invariant
            n <= k <= len,
            target@.len() == len,
            forall|j: int| 0 <= j < n ==> target@[j] == units@[j],
            forall|j: int| n <= j < k ==> target@[j] == 0,
        decreases len - k,
    {
        target[k] = 0;
        k += 1;
    }
    assert(target@ =~= written_wide(len as nat, text@));
}

} // verus!

verus! {

/// A 32-bit value whose bytes in memory (little-endian) are `o`.
pub open spec fn le_u32(o: Seq<u8>) -> u32 {
    (o[0] as int + o[1] as int * 0x100 + o[2] as int * 0x10000 + o[3] as int * 0x1000000) as u32
}

/// The four octets of a dotted IPv4 address, each part trimmed.
pub open spec fn ipv4_octets(text: Seq<char>) -> Option<Seq<u8>> {
    let parts = split_on(text, '.');
    if parts.len() == 4 && (forall|i: int|
        0 <= i < 4 ==> #[trigger] parse_unsigned(trim_seq(parts[i]), 255) is Some) {
        Some(Seq::new(4, |i: int| parse_unsigned(trim_seq(parts[i]), 255)->0 as u8))
    } else {
        None
    }
}

/// An IPv4 address as the `u32` whose bytes in memory are its octets, in
/// network order, as Win32 keeps it.
pub fn ipv4_to_u32(text: &str) -> (r: Option<u32>)
    ensures
        match r {
            Some(v) => ipv4_octets(text@) matches Some(o) && v == le_u32(o),
            None => ipv4_octets(text@) is None,
        },
{
    let parts = split_char(text, '.');
    let ghost ps = views(parts@);
    if parts.len() != 4 {
        return None;
    }
    let mut octets: Vec<u8> = Vec::new();
    let mut i: usize = 0;
    while i < 4
        invariant
            i <= 4,
            parts.len() == 4,
            ps == views(parts@),
            ps == split_on(text@, '.'),
            octets@.len() == i,
            forall|k: int|
                0 <= k < i ==> (#[trigger] parse_unsigned(trim_seq(ps[k]), 255) matches Some(v)
                    && octets@[k] == v as u8),
        decreases 4 - i,
    {
        let part = chars_of(parts[i].as_str());
        let t = trim_chars(&part);
        match parse_uint(t.as_slice(), 255) {
            Some(v) => {
                octets.push(v as u8);
            },
            None => {
                assert(!(parse_unsigned(trim_seq(ps[i as int]), 255) is Some));
                return None;
            },
        }
        i += 1;
    }
    let ghost o = Seq::new(4, |k: int| parse_unsigned(trim_seq(ps[k]), 255)->0 as u8);
    assert(octets@ =~= o);
    let v = octets[0] as u32 + octets[1] as u32 * 0x100 + octets[2] as u32 * 0x10000 + octets[3] as u32
        * 0x1000000;
    Some(v)
}

/// `a.b.c.d`.
pub open spec fn dotted_quad(a: u8, b: u8, c: u8, d: u8) -> Seq<char> {
    uint_text(a as nat) + seq!['.'] + uint_text(b as nat) + seq!['.'] + uint_text(c as nat)
        + seq!['.'] + uint_text(d as nat)
}

/// Formats four octets as a dotted address.
pub fn format_quad(a: u8, b: u8, c: u8, d: u8) -> (r: String)
    ensures
        r@ == dotted_quad(a, b, c, d),
{
    let mut out = String::new();
    push_uint(&mut out, a as u64);
    push_char(&mut out, '.');
    push_uint(&mut out, b as u64);
    push_char(&mut out, '.');
    push_uint(&mut out, c as u64);
    push_char(&mut out, '.');
    push_uint(&mut out, d as u64);
    assert(out@ =~= dotted_quad(a, b, c, d));
    out
}

/// The dotted address of a `u32` whose bytes in memory (little-endian) are
/// the octets.
pub fn u32_to_ipv4(value: u32) -> (r: String)
    ensures
        r@ == dotted_quad(
            (value % 0x100) as u8,
            (value / 0x100 % 0x100) as u8,
            (value / 0x10000 % 0x100) as u8,
            (value / 0x1000000) as u8,
        ),
{
    format_quad(
        (value % 0x100) as u8,
        (value / 0x100 % 0x100) as u8,
        (value / 0x10000 % 0x100) as u8,
        (value / 0x1000000) as u8,
    )
}

/// Whether a dotted address lies in an RFC 1918 private range: 10/8,
/// 172.16/12 or 192.168/16. Only the first two parts are read.
pub open spec fn is_private(text: Seq<char>) -> bool {
    let parts = split_on(text, '.');
    parts.len() == 4 && match (
        parse_unsigned(parts[0], 255),
        parse_unsigned(parts[1], 255),
    ) {
        (Some(a), Some(b)) => a == 10 || (a == 172 && 16 <= b && b <= 31) || (a == 192 && b
            == 168),
        _ => false,
    }
}

pub fn is_private_ipv4(text: &str) -> (r: bool)
    ensures
        r == is_private(text@),
{
    let parts = split_char(text, '.');
    if parts.len() != 4 {
        return false;
    }
    let first = chars_of(parts[0].as_str());
    let second = chars_of(parts[1].as_str());
    match (parse_uint(first.as_slice(), 255), parse_uint(second.as_slice(), 255)) {
        (Some(a), Some(b)) => a == 10 || (a == 172 && 16 <= b && b <= 31) || (a == 192 && b
            == 168),
        _ => false,
    }
}

/// A port as the TCP table stores it: big-endian in the low 16 bits.
pub open spec fn port_value(raw: u32) -> u16 {
    ((raw % 0x100) * 0x100 + (raw / 0x100) % 0x100) as u16
}

pub fn port_of(raw: u32) -> (r: u16)
    ensures
        r == port_value(raw),
{
    ((raw % 0x100) * 0x100 + (raw / 0x100) % 0x100) as u16
}

} // verus!

verus! {

proof fn lemma_utf16_front(s: Seq<char>)
    requires
        s.len() > 0,
    ensures
        utf16(s) == utf16_char(s[0]) + utf16(s.skip(1)),
    decreases s.len(),
{
    if s.len() == 1 {
        assert(s.drop_last() =~= Seq::<char>::empty());
        assert(s.skip(1) =~= Seq::<char>::empty());
        assert(utf16(s) =~= utf16_char(s[0]) + utf16(s.skip(1)));
    } else {
        lemma_utf16_front(s.drop_last());
        assert(s.skip(1).drop_last() =~= s.drop_last().skip(1));
        assert(s.skip(1).last() == s.last());
        assert(utf16(s) =~= utf16_char(s[0]) + utf16(s.skip(1)));
    }
}

proof fn lemma_decode_char(c: char, rest: Seq<u16>)
    ensures
        utf16_lossy(utf16_char(c) + rest) == seq![c] + utf16_lossy(rest),
{
    let v = c as nat;
    let u = utf16_char(c) + rest;
    assert(v <= 0x10FFFF && !(0xD800 <= v && v <= 0xDFFF));
    if v < 0x10000 {
        assert(u[0] == v as u16);
        assert(u.skip(1) =~= rest);
        assert((v as u16) as nat == v);
        assert(v as char == c);
    } else {
        let q = (v - 0x10000) / 1024;
        let m = (v - 0x10000) % 1024;
        assert(0 <= q <= 0x3FF && 0 <= m < 1024);
        assert(0x10000 + q * 1024 + m == v);
        assert(u[0] == (0xD800 + q) as u16);
        assert(u[1] == (0xDC00 + m) as u16);
        assert(u.skip(2) =~= rest);
        assert(v as char == c);
    }
}

/// Decoding a text's UTF-16 gives the text back.
pub proof fn lemma_utf16_roundtrip(s: Seq<char>)
    ensures
        utf16_lossy(utf16(s)) == s,
    decreases s.len(),
{
    if s.len() > 0 {
        lemma_utf16_front(s);
        lemma_decode_char(s[0], utf16(s.skip(1)));
        lemma_utf16_roundtrip(s.skip(1));
        assert(s =~= seq![s[0]] + s.skip(1));
    }
}

proof fn lemma_char_nonzero(c: char)
    requires
        c != '\0',
    ensures
        0 < c as nat <= 0x10FFFF,
{
    assert((c as nat) as char == c);
    if c as nat == 0 {
        assert((0nat as char) == '\0');
    }
}

proof fn lemma_utf16_nonzero(s: Seq<char>)
    requires
        forall|i: int| 0 <= i < s.len() ==> s[i] != '\0',
    ensures
        forall|k: int| 0 <= k < utf16(s).len() ==> utf16(s)[k] != 0,
    decreases s.len(),
{
    if s.len() > 0 {
        lemma_utf16_nonzero(s.drop_last());
        let a = utf16(s.drop_last());
        let b = utf16_char(s.last());
        assert(s.last() != '\0');
        assert forall|k: int| 0 <= k < utf16(s).len() implies utf16(s)[k] != 0 by {
            if k >= a.len() {
                lemma_char_nonzero(s.last());
                let v = s.last() as nat;
                assert(v <= 0x10FFFF);
                if v < 0x10000 {
                    assert(b[0] == v as u16);
                    assert((v as u16) as nat == v);
                } else {
                    let q = (v - 0x10000) / 1024;
                    let m = (v - 0x10000) % 1024;
                    assert(0 <= q <= 0x3FF && 0 <= m < 1024);
                    assert(b[0] == (0xD800 + q) as u16 && b[0] >= 0xD800);
                    assert(b[1] == (0xDC00 + m) as u16 && b[1] >= 0xDC00);
                }
                assert(utf16(s)[k] == b[k - a.len()]);
            } else {
                assert(utf16(s)[k] == a[k]);
            }
        }
    }
}

/// A text without NUL characters, put in a wide buffer with `wide` and
/// read back with `from_wide`, is the same text.
pub proof fn lemma_wide_roundtrip(s: Seq<char>)
    requires
        forall|i: int| 0 <= i < s.len() ==> s[i] != '\0',
    ensures
        utf16_lossy(until_zero(utf16(s).push(0))) == s,
{
    let u = utf16(s).push(0);
    lemma_utf16_nonzero(s);
    assert forall|k: int| 0 <= k < utf16(s).len() implies u[k] != 0 by {
        assert(u[k] == utf16(s)[k]);
    }
    lemma_until_zero(u, utf16(s).len() as int);
    assert(u.take(utf16(s).len() as int) =~= utf16(s));
    lemma_utf16_roundtrip(s);
}

} // verus!

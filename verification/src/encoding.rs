//! Byte-level decoding helpers shared by the superblock parsers: endian
//! field readers, hexadecimal and UUID rendering, and text decoding.

use vstd::prelude::*;
use vstd::string::StrSliceExecFns;
use vstd::string::StringExecFns;

verus! {

/// The little-endian 16-bit value at `off`.
pub open spec fn spec_u16_le(s: Seq<u8>, off: int) -> int {
    s[off] + s[off + 1] * 0x100
}

/// The little-endian 32-bit value at `off`.
pub open spec fn spec_u32_le(s: Seq<u8>, off: int) -> int {
    s[off] + s[off + 1] * 0x100 + s[off + 2] * 0x10000 + s[off + 3] * 0x1000000
}

/// The little-endian 64-bit value at `off`.
pub open spec fn spec_u64_le(s: Seq<u8>, off: int) -> int {
    spec_u32_le(s, off) + spec_u32_le(s, off + 4) * 0x100000000
}

/// The big-endian 16-bit value at `off`.
pub open spec fn spec_u16_be(s: Seq<u8>, off: int) -> int {
    s[off] * 0x100 + s[off + 1]
}

/// The big-endian 32-bit value at `off`.
pub open spec fn spec_u32_be(s: Seq<u8>, off: int) -> int {
    s[off] * 0x1000000 + s[off + 1] * 0x10000 + s[off + 2] * 0x100 + s[off + 3]
}

/// The big-endian 64-bit value at `off`.
pub open spec fn spec_u64_be(s: Seq<u8>, off: int) -> int {
    spec_u32_be(s, off) * 0x100000000 + spec_u32_be(s, off + 4)
}

/// Read the little-endian 16-bit field at `off`.
pub fn read_u16_le(data: &[u8], off: usize) -> (v: u16)
    requires
        off + 2 <= data@.len(),
    ensures
        v == spec_u16_le(data@, off as int),
{
    data[off] as u16 + data[off + 1] as u16 * 0x100
}

/// Read the little-endian 32-bit field at `off`.
pub fn read_u32_le(data: &[u8], off: usize) -> (v: u32)
    requires
        off + 4 <= data@.len(),
    ensures
        v == spec_u32_le(data@, off as int),
{
    data[off] as u32 + data[off + 1] as u32 * 0x100 + data[off + 2] as u32 * 0x10000 + data[off
        + 3] as u32 * 0x1000000
}

/// Read the little-endian 64-bit field at `off`.
pub fn read_u64_le(data: &[u8], off: usize) -> (v: u64)
    requires
        off + 8 <= data@.len(),
    ensures
        v == spec_u64_le(data@, off as int),
{
    let n = data.len();
    proof {
        assert(off + 8 <= n);
    }
    read_u32_le(data, off) as u64 + read_u32_le(data, off + 4) as u64 * 0x100000000
}

/// Read the big-endian 16-bit field at `off`.
pub fn read_u16_be(data: &[u8], off: usize) -> (v: u16)
    requires
        off + 2 <= data@.len(),
    ensures
        v == spec_u16_be(data@, off as int),
{
    data[off] as u16 * 0x100 + data[off + 1] as u16
}

/// Read the big-endian 32-bit field at `off`.
pub fn read_u32_be(data: &[u8], off: usize) -> (v: u32)
    requires
        off + 4 <= data@.len(),
    ensures
        v == spec_u32_be(data@, off as int),
{
    data[off] as u32 * 0x1000000 + data[off + 1] as u32 * 0x10000 + data[off + 2] as u32 * 0x100
        + data[off + 3] as u32
}

/// Read the big-endian 64-bit field at `off`.
pub fn read_u64_be(data: &[u8], off: usize) -> (v: u64)
    requires
        off + 8 <= data@.len(),
    ensures
        v == spec_u64_be(data@, off as int),
{
    let n = data.len();
    proof {
        assert(off + 8 <= n);
    }
    read_u32_be(data, off) as u64 * 0x100000000 + read_u32_be(data, off + 4) as u64
}

/// Copy `data[off..off + len]` into an owned vector.
pub fn bytes_at(data: &[u8], off: usize, len: usize) -> (r: Vec<u8>)
    requires
        off + len <= data@.len(),
    ensures
        r@ == data@.subrange(off as int, off as int + len as int),
{
    let n = data.len();
    let mut out: Vec<u8> = Vec::new();
    let mut i: usize = 0;
    while i < len
        invariant
            0 <= i <= len,
            n == data@.len(),
            off + len <= n,
            out@ == data@.subrange(off as int, off as int + i as int),
        decreases len - i,
    {
        out.push(data[off + i]);
        proof {
            assert(data@.subrange(off as int, off + i + 1) =~= data@.subrange(
                off as int,
                off + i as int,
            ).push(data@[off + i]));
        }
        i += 1;
    }
    out
}

/// The lowercase hexadecimal digit for a value below 16.
pub open spec fn spec_hex_digit(d: int) -> char {
    if d == 0 {
        '0'
    } else if d == 1 {
        '1'
    } else if d == 2 {
        '2'
    } else if d == 3 {
        '3'
    } else if d == 4 {
        '4'
    } else if d == 5 {
        '5'
    } else if d == 6 {
        '6'
    } else if d == 7 {
        '7'
    } else if d == 8 {
        '8'
    } else if d == 9 {
        '9'
    } else if d == 10 {
        'a'
    } else if d == 11 {
        'b'
    } else if d == 12 {
        'c'
    } else if d == 13 {
        'd'
    } else if d == 14 {
        'e'
    } else {
        'f'
    }
}

/// The uppercase hexadecimal digit for a value below 16.
pub open spec fn spec_hex_digit_upper(d: int) -> char {
    if d < 10 {
        spec_hex_digit(d)
    } else if d == 10 {
        'A'
    } else if d == 11 {
        'B'
    } else if d == 12 {
        'C'
    } else if d == 13 {
        'D'
    } else if d == 14 {
        'E'
    } else {
        'F'
    }
}

/// One byte as two lowercase hexadecimal digits.
pub open spec fn spec_byte_hex(b: u8) -> Seq<char> {
    seq![spec_hex_digit(b as int / 16), spec_hex_digit(b as int % 16)]
}

/// All bytes as consecutive lowercase hexadecimal digit pairs.
pub open spec fn spec_bytes_hex(s: Seq<u8>) -> Seq<char>
    decreases s.len(),
{
    if s.len() == 0 {
        Seq::empty()
    } else {
        spec_byte_hex(s[0]) + spec_bytes_hex(s.drop_first())
    }
}

/// A 16-byte identifier in hyphenated form: four groups of 4, 2, 2 and 2
/// bytes, then the last 6 bytes, each in lowercase hexadecimal.
pub open spec fn spec_uuid_hyphenated(s: Seq<u8>) -> Seq<char>
    recommends
        s.len() == 16,
{
    spec_bytes_hex(s.take(4)) + seq!['-'] + spec_bytes_hex(s.subrange(4, 6)) + seq!['-']
        + spec_bytes_hex(s.subrange(6, 8)) + seq!['-'] + spec_bytes_hex(s.subrange(8, 10))
        + seq!['-'] + spec_bytes_hex(s.skip(10))
}

fn hex_digit_str(d: u8) -> (s: &'static str)
    requires
        d < 16,
    ensures
        s@ == seq![spec_hex_digit(d as int)],
        s@.len() == 1,
{
    let r: &'static str = match d {
        0 => "0",
        1 => "1",
        2 => "2",
        3 => "3",
        4 => "4",
        5 => "5",
        6 => "6",
        7 => "7",
        8 => "8",
        9 => "9",
        10 => "a",
        11 => "b",
        12 => "c",
        13 => "d",
        14 => "e",
        _ => "f",
    };
    proof {
        reveal_strlit("0");
        reveal_strlit("1");
        reveal_strlit("2");
        reveal_strlit("3");
        reveal_strlit("4");
        reveal_strlit("5");
        reveal_strlit("6");
        reveal_strlit("7");
        reveal_strlit("8");
        reveal_strlit("9");
        reveal_strlit("a");
        reveal_strlit("b");
        reveal_strlit("c");
        reveal_strlit("d");
        reveal_strlit("e");
        reveal_strlit("f");
        assert(r@ =~= seq![spec_hex_digit(d as int)]);
    }
    r
}

fn hex_digit_upper_str(d: u8) -> (s: &'static str)
    requires
        d < 16,
    ensures
        s@ == seq![spec_hex_digit_upper(d as int)],
        s@.len() == 1,
{
    let r: &'static str = match d {
        0 => "0",
        1 => "1",
        2 => "2",
        3 => "3",
        4 => "4",
        5 => "5",
        6 => "6",
        7 => "7",
        8 => "8",
        9 => "9",
        10 => "A",
        11 => "B",
        12 => "C",
        13 => "D",
        14 => "E",
        _ => "F",
    };
    proof {
        reveal_strlit("0");
        reveal_strlit("1");
        reveal_strlit("2");
        reveal_strlit("3");
        reveal_strlit("4");
        reveal_strlit("5");
        reveal_strlit("6");
        reveal_strlit("7");
        reveal_strlit("8");
        reveal_strlit("9");
        reveal_strlit("A");
        reveal_strlit("B");
        reveal_strlit("C");
        reveal_strlit("D");
        reveal_strlit("E");
        reveal_strlit("F");
        assert(r@ =~= seq![spec_hex_digit_upper(d as int)]);
    }
    r
}

/// Append one byte as two lowercase hexadecimal digits.
fn push_byte_hex(out: &mut String, b: u8)
    ensures
        final(out)@ == old(out)@ + spec_byte_hex(b),
{
    out.append(hex_digit_str(b / 16));
    out.append(hex_digit_str(b % 16));
    proof {
        assert(final(out)@ =~= old(out)@ + spec_byte_hex(b));
    }
}

/// Append a run of bytes as lowercase hexadecimal digits.
fn push_bytes_hex(out: &mut String, data: &Vec<u8>, from: usize, to: usize)
    requires
        from <= to <= data@.len(),
    ensures
        final(out)@ == old(out)@ + spec_bytes_hex(data@.subrange(from as int, to as int)),
{
    let mut i = from;
    proof {
        assert(old(out)@ + spec_bytes_hex(data@.subrange(from as int, from as int)) =~= old(out)@);
    }
    while i < to
        invariant
            from <= i <= to <= data@.len(),
            out@ == old(out)@ + spec_bytes_hex(data@.subrange(from as int, i as int)),
        decreases to - i,
    {
        push_byte_hex(out, data[i]);
        proof {
            lemma_bytes_hex_append(data@.subrange(from as int, i + 1));
            assert(data@.subrange(from as int, i + 1).drop_last() =~= data@.subrange(
                from as int,
                i as int,
            ));
            assert(data@.subrange(from as int, i + 1).last() == data@[i as int]);
        }
        i += 1;
    }
}

proof fn lemma_bytes_hex_append(s: Seq<u8>)
    requires
        s.len() > 0,
    ensures
        spec_bytes_hex(s) == spec_bytes_hex(s.drop_last()) + spec_byte_hex(s.last()),
    decreases s.len(),
{
    if s.len() == 1 {
        assert(s.drop_first() =~= Seq::<u8>::empty());
        assert(s.drop_last() =~= Seq::<u8>::empty());
        assert(s[0] == s.last());
        assert(spec_bytes_hex(s) =~= spec_bytes_hex(s.drop_last()) + spec_byte_hex(s.last()));
    } else {
        lemma_bytes_hex_append(s.drop_first());
        assert(s.drop_first().drop_last() =~= s.drop_last().drop_first());
        assert(s.drop_first().last() == s.last());
        assert(s.drop_last()[0] == s[0]);
        assert(spec_bytes_hex(s) =~= spec_bytes_hex(s.drop_last()) + spec_byte_hex(s.last()));
    }
}

/// Render a 16-byte identifier in the hyphenated lowercase form.
pub fn uuid_hyphenated(bytes: &Vec<u8>) -> (r: String)
    requires
        bytes@.len() == 16,
    ensures
        r@ == spec_uuid_hyphenated(bytes@),
{
    let mut out = String::new();
    push_bytes_hex(&mut out, bytes, 0, 4);
    out.append("-");
    push_bytes_hex(&mut out, bytes, 4, 6);
    out.append("-");
    push_bytes_hex(&mut out, bytes, 6, 8);
    out.append("-");
    push_bytes_hex(&mut out, bytes, 8, 10);
    out.append("-");
    push_bytes_hex(&mut out, bytes, 10, 16);
    proof {
        reveal_strlit("-");
        assert(bytes@.take(4) =~= bytes@.subrange(0, 4));
        assert(bytes@.skip(10) =~= bytes@.subrange(10, 16));
        assert(out@ =~= spec_uuid_hyphenated(bytes@));
    }
    out
}

/// A 16-bit value as four uppercase hexadecimal digits.
pub open spec fn spec_hex16_upper(v: int) -> Seq<char> {
    seq![
        spec_hex_digit_upper(v / 0x1000 % 16),
        spec_hex_digit_upper(v / 0x100 % 16),
        spec_hex_digit_upper(v / 0x10 % 16),
        spec_hex_digit_upper(v % 16),
    ]
}

/// Append a 16-bit value as four uppercase hexadecimal digits.
pub fn push_hex16_upper(out: &mut String, v: u16)
    ensures
        final(out)@ == old(out)@ + spec_hex16_upper(v as int),
{
    out.append(hex_digit_upper_str(((v / 0x1000) % 16) as u8));
    out.append(hex_digit_upper_str(((v / 0x100) % 16) as u8));
    out.append(hex_digit_upper_str(((v / 0x10) % 16) as u8));
    out.append(hex_digit_upper_str((v % 16) as u8));
    proof {
        assert(final(out)@ =~= old(out)@ + spec_hex16_upper(v as int));
    }
}

/// The decimal digits of a non-negative integer, most significant first.
pub open spec fn spec_decimal(n: int) -> Seq<char>
    recommends
        n >= 0,
    decreases n,
{
    if n < 10 {
        seq![spec_hex_digit(n)]
    } else {
        spec_decimal(n / 10).push(spec_hex_digit(n % 10))
    }
}

/// Render an integer in decimal.
pub fn u64_to_string(n: u64) -> (r: String)
    ensures
        r@ == spec_decimal(n as int),
    decreases n,
{
    if n < 10 {
        let digit = hex_digit_str(n as u8);
        digit.to_owned()
    } else {
        let mut s = u64_to_string(n / 10);
        s.append(hex_digit_str((n % 10) as u8));
        proof {
            assert(s@ =~= spec_decimal(n as int));
        }
        s
    }
}

/// Append one decimal digit (a value below ten).
pub fn push_digit(out: &mut String, d: u64)
    requires
        d < 10,
    ensures
        final(out)@ == old(out)@ + seq![spec_hex_digit(d as int)],
{
    out.append(hex_digit_str(d as u8));
}

/// The sequence without its trailing copies of `c`.
pub open spec fn spec_trim_trailing<A>(s: Seq<A>, c: A) -> Seq<A>
    decreases s.len(),
{
    if s.len() > 0 && s.last() == c {
        spec_trim_trailing(s.drop_last(), c)
    } else {
        s
    }
}

/// Remove every trailing copy of `c` from the string.
pub fn trim_trailing(s: &str, c: char) -> (r: String)
    ensures
        r@ == spec_trim_trailing(s@, c),
{
    let n = s.unicode_len();
    let mut keep = n;
    proof {
        assert(s@.take(n as int) =~= s@);
    }
    while keep > 0 && s.get_char(keep - 1) == c
        invariant
            0 <= keep <= n,
            n == s@.len(),
            spec_trim_trailing(s@, c) == spec_trim_trailing(s@.take(keep as int), c),
        decreases keep,
    {
        proof {
            assert(s@.take(keep as int).last() == s@[keep - 1]);
            assert(s@.take(keep as int).drop_last() =~= s@.take(keep - 1));
        }
        keep -= 1;
    }
    proof {
        if keep > 0 {
            assert(s@.take(keep as int).last() == s@[keep - 1]);
        }
        assert(spec_trim_trailing(s@.take(keep as int), c) == s@.take(keep as int));
    }
    let kept = s.substring_char(0, keep);
    kept.to_owned()
}

/// Relies on `str::from_utf8`: it succeeds exactly on valid UTF-8 and
/// yields the string whose characters are that encoding's decoding.
#[verifier::external_body]
pub(crate) fn utf8_to_string(v: &[u8]) -> (r: Option<String>)
    ensures
        r is Some <==> vstd::utf8::valid_utf8(v@),
        r matches Some(s) ==> s@ == vstd::utf8::decode_utf8(v@),
{
    match core::str::from_utf8(v) {
        Ok(s) => Some(s.to_owned()),
        Err(_) => None,
    }
}

/// Is this sequence of 16-bit units well-formed UTF-16 (no unpaired
/// surrogates)?
pub open spec fn utf16_ok(u: Seq<u16>) -> bool
    decreases u.len(),
{
    if u.len() == 0 {
        true
    } else if u[0] < 0xD800 || u[0] >= 0xE000 {
        utf16_ok(u.drop_first())
    } else if u[0] < 0xDC00 {
        u.len() >= 2 && 0xDC00 <= u[1] < 0xE000 && utf16_ok(u.skip(2))
    } else {
        false
    }
}

/// The scalar values a well-formed UTF-16 sequence encodes, pairing
/// surrogates into supplementary-plane values.
pub open spec fn utf16_scalars(u: Seq<u16>) -> Seq<u32>
    decreases u.len(),
{
    if u.len() == 0 {
        Seq::empty()
    } else if u[0] < 0xD800 || u[0] >= 0xE000 {
        seq![u[0] as u32] + utf16_scalars(u.drop_first())
    } else if u[0] < 0xDC00 && u.len() >= 2 {
        seq![(0x10000 + (u[0] - 0xD800) * 0x400 + if u[1] >= 0xDC00 {
            (u[1] - 0xDC00) as int
        } else {
            0
        }) as u32] + utf16_scalars(u.skip(2))
    } else {
        Seq::empty()
    }
}

/// Relies on `String::from_utf16`: it succeeds exactly when no surrogate
/// is unpaired, and decodes basic-plane units to themselves and surrogate
/// pairs to their supplementary scalar value.
#[verifier::external_body]
pub(crate) fn utf16_to_string(v: &[u16]) -> (r: Option<String>)
    ensures
        r is Some <==> utf16_ok(v@),
        r matches Some(s) ==> s@.map_values(|c: char| c as u32) == utf16_scalars(v@),
{
    match String::from_utf16(v) {
        Ok(s) => Some(s),
        Err(_) => None,
    }
}

} // verus!

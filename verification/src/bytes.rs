//! Byte-level helpers shared by the format readers: big- and little-endian
//! integers and comparison of byte ranges.

use vstd::prelude::*;

verus! {

/// The big-endian 16-bit number at `bytes[at..at + 2]`.
pub open spec fn spec_be_u16(bytes: Seq<u8>, at: int) -> nat {
    (bytes[at] * 256 + bytes[at + 1]) as nat
}

/// The big-endian 32-bit number at `bytes[at..at + 4]`.
pub open spec fn spec_be_u32(bytes: Seq<u8>, at: int) -> nat {
    (bytes[at] * 16777216 + bytes[at + 1] * 65536 + bytes[at + 2] * 256 + bytes[at + 3]) as nat
}

/// The little-endian 16-bit number at `bytes[at..at + 2]`.
pub open spec fn spec_le_u16(bytes: Seq<u8>, at: int) -> nat {
    (bytes[at] + bytes[at + 1] * 256) as nat
}

/// The little-endian 24-bit number at `bytes[at..at + 3]`.
pub open spec fn spec_le_u24(bytes: Seq<u8>, at: int) -> nat {
    (bytes[at] + bytes[at + 1] * 256 + bytes[at + 2] * 65536) as nat
}

/// The little-endian 32-bit number at `bytes[at..at + 4]`.
pub open spec fn spec_le_u32(bytes: Seq<u8>, at: int) -> nat {
    (bytes[at] + bytes[at + 1] * 256 + bytes[at + 2] * 65536 + bytes[at + 3] * 16777216) as nat
}

/// The four bytes that write `value` in big-endian order.
pub open spec fn spec_u32_be_bytes(value: u32) -> Seq<u8> {
    seq![
        (value / 16777216) as u8,
        ((value / 65536) % 256) as u8,
        ((value / 256) % 256) as u8,
        (value % 256) as u8,
    ]
}

/// The two bytes that write `value` in big-endian order.
pub open spec fn spec_u16_be_bytes(value: u16) -> Seq<u8> {
    seq![(value / 256) as u8, (value % 256) as u8]
}

pub fn read_be_u16(data: &[u8], at: usize) -> (value: u16)
    requires
        at + 2 <= data.len(),
    ensures
        value as nat == spec_be_u16(data@, at as int),
{
    let hi: u16 = data[at] as u16;
    let lo: u16 = data[at + 1] as u16;
    hi * 256 + lo
}

pub fn read_be_u32(data: &[u8], at: usize) -> (value: u32)
    requires
        at + 4 <= data.len(),
    ensures
        value as nat == spec_be_u32(data@, at as int),
{
    let b0: u32 = data[at] as u32;
    let b1: u32 = data[at + 1] as u32;
    let b2: u32 = data[at + 2] as u32;
    let b3: u32 = data[at + 3] as u32;
    b0 * 16777216 + b1 * 65536 + b2 * 256 + b3
}

pub fn read_le_u16(data: &[u8], at: usize) -> (value: u16)
    requires
        at + 2 <= data.len(),
    ensures
        value as nat == spec_le_u16(data@, at as int),
{
    let lo: u16 = data[at] as u16;
    let hi: u16 = data[at + 1] as u16;
    lo + hi * 256
}

pub fn read_le_u24(data: &[u8], at: usize) -> (value: u32)
    requires
        at + 3 <= data.len(),
    ensures
        value as nat == spec_le_u24(data@, at as int),
{
    let b0: u32 = data[at] as u32;
    let b1: u32 = data[at + 1] as u32;
    let b2: u32 = data[at + 2] as u32;
    b0 + b1 * 256 + b2 * 65536
}

pub fn read_le_u32(data: &[u8], at: usize) -> (value: u32)
    requires
        at + 4 <= data.len(),
    ensures
        value as nat == spec_le_u32(data@, at as int),
{
    let b0: u32 = data[at] as u32;
    let b1: u32 = data[at + 1] as u32;
    let b2: u32 = data[at + 2] as u32;
    let b3: u32 = data[at + 3] as u32;
    b0 + b1 * 256 + b2 * 65536 + b3 * 16777216
}

/// Appends the big-endian bytes of `value` to `out`.
pub fn push_be_u32(out: &mut Vec<u8>, value: u32)
    ensures
        final(out)@ == old(out)@ + spec_u32_be_bytes(value),
{
    out.push((value / 16777216) as u8);
    out.push(((value / 65536) % 256) as u8);
    out.push(((value / 256) % 256) as u8);
    out.push((value % 256) as u8);
    assert(out@ =~= old(out)@ + spec_u32_be_bytes(value));
}

/// Appends the big-endian bytes of `value` to `out`.
pub fn push_be_u16(out: &mut Vec<u8>, value: u16)
    ensures
        final(out)@ == old(out)@ + spec_u16_be_bytes(value),
{
    out.push((value / 256) as u8);
    out.push((value % 256) as u8);
    assert(out@ =~= old(out)@ + spec_u16_be_bytes(value));
}

/// Reading back the bytes that `spec_u32_be_bytes` wrote gives the number.
pub proof fn lemma_be_u32_round_trip(bytes: Seq<u8>, at: int, value: u32)
    requires
        0 <= at,
        at + 4 <= bytes.len(),
        bytes.subrange(at, at + 4) == spec_u32_be_bytes(value),
    ensures
        spec_be_u32(bytes, at) == value,
{
    let w = spec_u32_be_bytes(value);
    assert(bytes[at] == bytes.subrange(at, at + 4)[0]);
    assert(bytes[at + 1] == bytes.subrange(at, at + 4)[1]);
    assert(bytes[at + 2] == bytes.subrange(at, at + 4)[2]);
    assert(bytes[at + 3] == bytes.subrange(at, at + 4)[3]);
    assert(w[0] == (value / 16777216) as u8);
    assert(w[1] == ((value / 65536) % 256) as u8);
    assert(w[2] == ((value / 256) % 256) as u8);
    assert(w[3] == (value % 256) as u8);
}

proof fn lemma_be_split(b0: int, b1: int, b2: int, b3: int)
    requires
        0 <= b0 < 256,
        0 <= b1 < 256,
        0 <= b2 < 256,
        0 <= b3 < 256,
    ensures
        ({
            let v = b0 * 16777216 + b1 * 65536 + b2 * 256 + b3;
            &&& 0 <= v <= 0xFFFF_FFFF
            &&& v / 16777216 == b0
            &&& (v / 65536) % 256 == b1
            &&& (v / 256) % 256 == b2
            &&& v % 256 == b3
        }),
{
    let v = b0 * 16777216 + b1 * 65536 + b2 * 256 + b3;
    let w2 = b0 * 65536 + b1 * 256 + b2;
    let w1 = b0 * 256 + b1;
    assert(v == w2 * 256 + b3);
    assert(v / 256 == w2);
    assert(v % 256 == b3);
    assert(w2 == w1 * 256 + b2);
    assert(w2 % 256 == b2);
    assert(w2 / 256 == w1);
    assert(v / 65536 == w1);
    assert(w1 % 256 == b1);
    assert(w1 / 256 == b0);
    assert(v / 16777216 == b0);
}

/// The four bytes at `at` are the bytes that write the number read there.
pub proof fn lemma_be_u32_bytes_of_read(bytes: Seq<u8>, at: int)
    requires
        0 <= at,
        at + 4 <= bytes.len(),
    ensures
        spec_be_u32(bytes, at) <= 0xFFFF_FFFF,
        spec_u32_be_bytes(spec_be_u32(bytes, at) as u32) == bytes.subrange(at, at + 4),
{
    lemma_be_split(
        bytes[at] as int,
        bytes[at + 1] as int,
        bytes[at + 2] as int,
        bytes[at + 3] as int,
    );
    let value = spec_be_u32(bytes, at) as u32;
    let written = spec_u32_be_bytes(value);
    let read = bytes.subrange(at, at + 4);
    assert(written[0] == read[0]);
    assert(written[1] == read[1]);
    assert(written[2] == read[2]);
    assert(written[3] == read[3]);
    assert(written =~= read);
}

/// Reading back the bytes that `spec_u16_be_bytes` wrote gives the number.
pub proof fn lemma_be_u16_round_trip(bytes: Seq<u8>, at: int, value: u16)
    requires
        0 <= at,
        at + 2 <= bytes.len(),
        bytes.subrange(at, at + 2) == spec_u16_be_bytes(value),
    ensures
        spec_be_u16(bytes, at) == value,
{
    let w = spec_u16_be_bytes(value);
    assert(bytes[at] == bytes.subrange(at, at + 2)[0]);
    assert(bytes[at + 1] == bytes.subrange(at, at + 2)[1]);
    assert(w[0] == (value / 256) as u8);
    assert(w[1] == (value % 256) as u8);
}

/// Whether `pat` stands in `data` at index `at`.
pub open spec fn spec_has_bytes_at(data: Seq<u8>, at: int, pat: Seq<u8>) -> bool {
    0 <= at && at + pat.len() <= data.len() && data.subrange(at, at + pat.len()) == pat
}

pub fn has_bytes_at(data: &[u8], at: usize, pat: &Vec<u8>) -> (b: bool)
    ensures
        b == spec_has_bytes_at(data@, at as int, pat@),
{
    if at > data.len() || pat.len() > data.len() - at {
        return false;
    }
    let mut i: usize = 0;
    while i < pat.len()
        invariant
            i <= pat.len(),
            at + pat.len() <= data.len(),
            data@.subrange(at as int, at + i) == pat@.take(i as int),
        decreases pat.len() - i,
    {
        if data[at + i] != pat[i] {
            assert(data@.subrange(at as int, at + pat.len())[i as int] != pat@[i as int]);
            return false;
        }
        assert(data@.subrange(at as int, at + i + 1) =~= data@.subrange(at as int, at + i).push(
            data@[at + i],
        ));
        assert(pat@.take(i + 1) =~= pat@.take(i as int).push(pat@[i as int]));
        i += 1;
    }
    assert(pat@.take(pat.len() as int) =~= pat@);
    true
}

/// A copy of `data[from..to]`.
pub fn copy_range(data: &[u8], from: usize, to: usize) -> (out: Vec<u8>)
    requires
        from <= to <= data.len(),
    ensures
        out@ == data@.subrange(from as int, to as int),
{
    vstd::slice::slice_to_vec(vstd::slice::slice_subrange(data, from, to))
}

/// Appends `data[from..to]` to `out`.
pub fn append_byte_range(out: &mut Vec<u8>, data: &[u8], from: usize, to: usize)
    requires
        from <= to <= data.len(),
    ensures
        final(out)@ == old(out)@ + data@.subrange(from as int, to as int),
{
    out.extend_from_slice(vstd::slice::slice_subrange(data, from, to));
}

} // verus!

//! The 16-bit cyclic redundancy check of the format: polynomial 0xA001 in
//! reflected form, initial value zero, no final inversion.
use vstd::prelude::*;

verus! {

/// One bit of polynomial division: shift right, and subtract the polynomial
/// where a one fell out.
pub open spec fn crc_shift(crc: u16) -> u16 {
    if crc & 1 == 1 {
        (crc >> 1) ^ 0xA001
    } else {
        crc >> 1
    }
}

/// Four bits of polynomial division.
pub open spec fn crc_shift4(crc: u16) -> u16 {
    crc_shift(crc_shift(crc_shift(crc_shift(crc))))
}

/// The check value after one more byte: the byte is added to the low half,
/// and eight bits are divided out.
pub open spec fn crc_step(crc: u16, byte: u8) -> u16 {
    crc_shift4(crc_shift4(crc ^ (byte as u16)))
}

/// The check value of a byte sequence.
pub open spec fn crc_16_of(bytes: Seq<u8>) -> u16
    decreases bytes.len(),
{
    if bytes.len() == 0 {
        0
    } else {
        crc_step(crc_16_of(bytes.drop_last()), bytes.last())
    }
}

/// The check value of the four-bit number `n`.
pub open spec fn nibble_entry_of(n: u16) -> u16 {
    if n == 0 {
        0x0000
    } else if n == 1 {
        0xCC01
    } else if n == 2 {
        0xD801
    } else if n == 3 {
        0x1400
    } else if n == 4 {
        0xF001
    } else if n == 5 {
        0x3C00
    } else if n == 6 {
        0x2800
    } else if n == 7 {
        0xE401
    } else if n == 8 {
        0xA001
    } else if n == 9 {
        0x6C00
    } else if n == 10 {
        0x7800
    } else if n == 11 {
        0xB401
    } else if n == 12 {
        0x5000
    } else if n == 13 {
        0x9C01
    } else if n == 14 {
        0x8801
    } else {
        0x4400
    }
}

/// Division is linear over exclusive or.
pub proof fn lemma_shift_linear(a: u16, b: u16)
    by (bit_vector)
    ensures
        crc_shift(a ^ b) == crc_shift(a) ^ crc_shift(b),
{
}

/// Four bits of division are linear over exclusive or.
pub proof fn lemma_shift4_linear(a: u16, b: u16)
    ensures
        crc_shift4(a ^ b) == crc_shift4(a) ^ crc_shift4(b),
{
    lemma_shift_linear(a, b);
    lemma_shift_linear(crc_shift(a), crc_shift(b));
    lemma_shift_linear(crc_shift(crc_shift(a)), crc_shift(crc_shift(b)));
    lemma_shift_linear(
        crc_shift(crc_shift(crc_shift(a))),
        crc_shift(crc_shift(crc_shift(b))),
    );
}

/// Dividing four bits out of a check value: the upper twelve bits move down,
/// and the table gives the rest.
pub proof fn lemma_nibble_step(crc: u16)
    by (bit_vector)
    ensures
        ((crc >> 4) & 0x0FFF) ^ nibble_entry_of(crc & 0xF) == crc_shift4(crc),
{
}

/// The table entry of a four-bit number is its check value.
pub proof fn lemma_nibble_entry(n: u16)
    by (bit_vector)
    requires
        n < 16,
    ensures
        nibble_entry_of(n) == crc_shift4(n),
{
}

/// A four-bit number that stands in the upper half of a byte comes down
/// unchanged.
pub proof fn lemma_high_nibble(n: u16)
    by (bit_vector)
    requires
        n < 16,
    ensures
        crc_shift4(n << 4) == n,
{
}

/// A byte is its low nibble and its high nibble.
pub proof fn lemma_split_byte(crc: u16, byte: u8)
    by (bit_vector)
    ensures
        crc ^ (byte as u16) == (crc ^ ((byte & 0xF) as u16)) ^ ((((byte >> 4) & 0xF) as u16) << 4),
        ((byte & 0xF) as u16) < 16,
        (((byte >> 4) & 0xF) as u16) < 16,
{
}

/// The check value of a four-bit number, from the table.
fn nibble_entry(n: u16) -> (r: u16)
    requires
        n < 16,
    ensures
        r == nibble_entry_of(n),
{
    match n {
        0 => 0x0000,
        1 => 0xCC01,
        2 => 0xD801,
        3 => 0x1400,
        4 => 0xF001,
        5 => 0x3C00,
        6 => 0x2800,
        7 => 0xE401,
        8 => 0xA001,
        9 => 0x6C00,
        10 => 0x7800,
        11 => 0xB401,
        12 => 0x5000,
        13 => 0x9C01,
        14 => 0x8801,
        _ => 0x4400,
    }
}

/// The check value after four more bits.
fn crc_nibble(crc: u16, n: u16) -> (r: u16)
    requires
        n < 16,
    ensures
        r == crc_shift4(crc ^ n),
{
    proof {
        lemma_nibble_step(crc);
        lemma_nibble_entry(n);
        lemma_shift4_linear(crc, n);
        assert(crc & 0xF < 16) by (bit_vector);
    }
    let tmp = nibble_entry(crc & 0xF);
    let shifted = (crc >> 4) & 0x0FFF;
    shifted ^ tmp ^ nibble_entry(n)
}

/// The check value after one more byte.
pub fn crc_update(crc: u16, byte: u8) -> (r: u16)
    ensures
        r == crc_step(crc, byte),
{
    let lo = (byte & 0xF) as u16;
    let hi = ((byte >> 4) & 0xF) as u16;
    proof {
        lemma_split_byte(crc, byte);
        lemma_high_nibble(hi);
        lemma_shift4_linear(crc ^ lo, hi << 4);
    }
    let low = crc_nibble(crc, lo);
    crc_nibble(low, hi)
}

/// The check value of a byte slice.
pub fn crc_16(bytes: &[u8]) -> (r: u16)
    ensures
        r == crc_16_of(bytes@),
{
    let mut crc: u16 = 0;
    let mut i: usize = 0;
    while i < bytes.len()
        invariant
            i <= bytes.len(),
            crc == crc_16_of(bytes@.take(i as int)),
        decreases bytes.len() - i,
    {
        assert(bytes@.take(i + 1).drop_last() =~= bytes@.take(i as int));
        crc = crc_update(crc, bytes[i]);
        i += 1;
    }
    assert(bytes@.take(i as int) =~= bytes@);
    crc
}

} // verus!


//! Rolling counters: the full value of a counter that the wire carries cut
//! down to a few bits per sample.
use vstd::prelude::*;
use vstd::arithmetic::power2::pow2;
use std::collections::HashMap;

verus! {

broadcast use vstd::std_specs::hash::group_hash_axioms;

/// The number of values that `bits` bits can hold, capped at the 64 bits of
/// a counter.
pub open spec fn modulus_of(bits: u8) -> int {
    if bits >= 64 {
        0x1_0000_0000_0000_0000
    } else {
        pow2(bits as nat) as int
    }
}

/// The mask of the low `bits` bits.
pub open spec fn mask_of(bits: u8) -> u64 {
    (modulus_of(bits) - 1) as u64
}

/// How far a counter moved between two samples of `bits` bits: the least
/// number that, added to `last`, gives `value` in the low `bits` bits.
pub open spec fn step_of(value: u64, last: u64, bits: u8) -> u64 {
    ((value - last) % modulus_of(bits)) as u64
}

/// One counter: its full value and the last sample.
#[derive(Debug, Clone, Copy, PartialEq, Eq, Structural)]
pub struct AccumulatedField {
    pub accumulated_value: u64,
    pub last_value: u64,
}

impl AccumulatedField {
    /// The counter after a sample of `bits` bits: it moves on by the step
    /// from the last sample, and remembers the new one.
    pub open spec fn after(self, value: u64, bits: u8) -> AccumulatedField {
        AccumulatedField {
            accumulated_value: ((self.accumulated_value + step_of(value, self.last_value, bits))
                % 0x1_0000_0000_0000_0000) as u64,
            last_value: value,
        }
    }

    /// A counter that starts at `value`, which also counts as its last sample.
    pub fn new(value: u64) -> (r: Self)
        ensures
            r.accumulated_value == value,
            r.last_value == value,
    {
        AccumulatedField { accumulated_value: value, last_value: value }
    }

    /// Takes a sample of `bits` bits and returns the full value. The value
    /// never falls, and it rises by less than `2^bits`, unless it passes the
    /// 64 bits of the counter.
    pub fn accumulate(&mut self, value: u64, bits: u8) -> (r: u64)
        ensures
            *final(self) == old(self).after(value, bits),
            r == final(self).accumulated_value,
            old(self).accumulated_value + mask_of(bits) <= u64::MAX ==> old(self).accumulated_value
                <= r <= old(self).accumulated_value + mask_of(bits),
            old(self).accumulated_value + step_of(value, old(self).last_value, bits) <= u64::MAX
                ==> r == old(self).accumulated_value + step_of(value, old(self).last_value, bits),
    {
        let step = step_between(value, self.last_value, bits);
        self.accumulated_value = self.accumulated_value.wrapping_add(step);
        self.last_value = value;
        self.accumulated_value
    }
}

/// The mask of the low `bits` bits.
pub fn low_mask(bits: u8) -> (r: u64)
    ensures
        r == mask_of(bits),
        r + 1 == modulus_of(bits),
{
    if bits >= 64 {
        u64::MAX
    } else {
        proof {
            vstd::bits::lemma_u64_pow2_no_overflow(bits as nat);
            vstd::bits::lemma_u64_shl_is_mul(1, bits as u64);
            vstd::arithmetic::power2::lemma_pow2_pos(bits as nat);
        }
        (1u64 << (bits as u64)) - 1
    }
}

/// How far a counter moved between two samples of `bits` bits.
pub fn step_between(value: u64, last: u64, bits: u8) -> (r: u64)
    ensures
        r == step_of(value, last, bits),
        r <= mask_of(bits),
{
    let diff = value.wrapping_sub(last);
    let mask = low_mask(bits);
    proof {
        let d = value - last;
        assert(diff == d % 0x1_0000_0000_0000_0000);
        if bits < 64 {
            let m = pow2(bits as nat) as int;
            vstd::bits::lemma_u64_pow2_no_overflow(bits as nat);
            vstd::arithmetic::power2::lemma_pow2_pos(bits as nat);
            vstd::bits::lemma_u64_low_bits_mask_is_mod(diff, bits as nat);
            assert(vstd::bits::low_bits_mask(bits as nat) == mask) by {
                vstd::bits::lemma_low_bits_mask_values();
                reveal(vstd::bits::low_bits_mask);
            }
            assert(diff & mask == diff % (m as u64));
            vstd::arithmetic::power2::lemma_pow2_adds(bits as nat, (64 - bits) as nat);
            vstd::arithmetic::power2::lemma2_to64();
            vstd::arithmetic::power2::lemma_pow2_pos((64 - bits) as nat);
            vstd::arithmetic::div_mod::lemma_mod_mod(d, m, pow2((64 - bits) as nat) as int);
        } else {
            assert(diff & 0xFFFF_FFFF_FFFF_FFFF == diff) by (bit_vector);
        }
    }
    diff & mask
}

/// The key of a counter: the message number and the field number in one.
pub open spec fn counter_key(msg_no: u16, field_no: u8) -> u32 {
    (msg_no * 0x100 + field_no) as u32
}

/// A counter per message number and field number.
pub struct Accumulator {
    pub messages: HashMap<u32, AccumulatedField>,
}

impl View for Accumulator {
    type V = Map<u32, AccumulatedField>;

    open spec fn view(&self) -> Map<u32, AccumulatedField> {
        self.messages@
    }
}

/// The counters after a sample for one of them; a sample for a counter that
/// was never started changes nothing.
pub open spec fn counters_after(
    counters: Map<u32, AccumulatedField>,
    msg_no: u16,
    field_no: u8,
    value: u64,
    bits: u8,
) -> Map<u32, AccumulatedField> {
    let key = counter_key(msg_no, field_no);
    if counters.contains_key(key) {
        counters.insert(key, counters[key].after(value, bits))
    } else {
        counters
    }
}

/// What a sample gives: the full value of its counter after it, or the
/// sample itself where the counter was never started.
pub open spec fn accumulated(
    counters: Map<u32, AccumulatedField>,
    msg_no: u16,
    field_no: u8,
    value: u64,
    bits: u8,
) -> u64 {
    let key = counter_key(msg_no, field_no);
    if counters.contains_key(key) {
        counters[key].after(value, bits).accumulated_value
    } else {
        value
    }
}

/// The key of a counter.
fn key_of(msg_no: u16, field_no: u8) -> (r: u32)
    ensures
        r == counter_key(msg_no, field_no),
{
    msg_no as u32 * 0x100 + field_no as u32
}

impl Accumulator {
    /// No counters.
    pub fn new() -> (r: Accumulator)
        ensures
            r@ == Map::<u32, AccumulatedField>::empty(),
    {
        Accumulator { messages: HashMap::new() }
    }

    /// Starts the counter of a field at `value`, which also counts as its
    /// last sample.
    pub fn add(&mut self, msg_no: u16, field_no: u8, value: u64)
        ensures
            final(self)@ == old(self)@.insert(
                counter_key(msg_no, field_no),
                AccumulatedField { accumulated_value: value, last_value: value },
            ),
    {
        self.messages.insert(key_of(msg_no, field_no), AccumulatedField::new(value));
    }

    /// Takes a sample of `bits` bits for the counter of a field and returns
    /// its full value; returns the sample unchanged where the counter was
    /// never started.
    pub fn accumulate(&mut self, msg_no: u16, field_no: u8, value: u64, bits: u8) -> (r: u64)
        ensures
            final(self)@ == counters_after(old(self)@, msg_no, field_no, value, bits),
            r == accumulated(old(self)@, msg_no, field_no, value, bits),
    {
        let key = key_of(msg_no, field_no);
        let found = match self.messages.get(&key) {
            Some(field) => Some(*field),
            None => None,
        };
        match found {
            Some(field) => {
                let mut field = field;
                let r = field.accumulate(value, bits);
                self.messages.insert(key, field);
                r
            },
            None => value,
        }
    }
}

/// A full value never falls from one sample to the next, and rises by
/// `2^bits - 1` at most, as long as it stays within 64 bits.
pub proof fn lemma_accumulate_monotonic(field: AccumulatedField, value: u64, bits: u8)
    requires
        field.accumulated_value + mask_of(bits) <= u64::MAX,
    ensures
        field.accumulated_value <= field.after(value, bits).accumulated_value
            <= field.accumulated_value + mask_of(bits),
{
    if bits < 64 {
        vstd::arithmetic::power2::lemma_pow2_pos(bits as nat);
        vstd::bits::lemma_u64_pow2_no_overflow(bits as nat);
    }
    let m = modulus_of(bits);
    let d = value - field.last_value;
    assert(0 <= d % m < m);
}

/// The counter after the first `n` of a sequence of samples.
pub open spec fn after_samples(
    field: AccumulatedField,
    samples: Seq<u64>,
    bits: u8,
    n: nat,
) -> AccumulatedField
    decreases n,
{
    if n == 0 {
        field
    } else {
        after_samples(field, samples, bits, (n - 1) as nat).after(samples[n - 1], bits)
    }
}

/// Through any sequence of samples of `bits` bits, each full value is at
/// least the one before it and at most `2^bits - 1` more, as long as the
/// counter has room for that many steps.
pub proof fn lemma_reconstruction_monotonic(
    field: AccumulatedField,
    samples: Seq<u64>,
    bits: u8,
    n: nat,
)
    requires
        n < samples.len(),
        field.accumulated_value + samples.len() * mask_of(bits) <= u64::MAX,
    ensures
        after_samples(field, samples, bits, n).accumulated_value <= after_samples(
            field,
            samples,
            bits,
            n + 1,
        ).accumulated_value <= after_samples(field, samples, bits, n).accumulated_value + mask_of(
            bits,
        ),
        after_samples(field, samples, bits, n + 1).accumulated_value <= field.accumulated_value
            + (n + 1) * mask_of(bits),
    decreases n,
{
    let m = mask_of(bits) as int;
    assert((n + 1) * m <= samples.len() * m) by (nonlinear_arith)
        requires
            n + 1 <= samples.len(),
            m >= 0,
    ;
    assert((n + 1) * m == n * m + m) by (nonlinear_arith);
    if n > 0 {
        lemma_reconstruction_monotonic(field, samples, bits, (n - 1) as nat);
    }
    let before = after_samples(field, samples, bits, n);
    assert(before.accumulated_value <= field.accumulated_value + n * m);
    lemma_accumulate_monotonic(before, samples[n as int], bits);
}

} // verus!

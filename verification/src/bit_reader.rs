//! A reader of bits from an unsigned integer or from an array of them: the
//! lowest bit of the first element comes first.
use vstd::prelude::*;
use vstd::arithmetic::power2::pow2;
use crate::fit::{lemma_array_model, Value, value_models, ValueModel};

verus! {

/// The numbers of a sequence of values, where each is an unsigned integer.
pub open spec fn unsigned_words(a: Seq<ValueModel>) -> Option<Seq<u64>> {
    if forall|i: int| 0 <= i < a.len() ==> (#[trigger] a[i]).unsigned() is Some {
        Some(Seq::new(a.len(), |i: int| a[i].unsigned().unwrap()))
    } else {
        None
    }
}

/// The words that a value gives a bit reader: its own number, or the
/// numbers of its elements; `None` unless all of them are unsigned integers,
/// and for an empty array.
pub open spec fn bit_words(v: ValueModel) -> Option<Seq<u64>> {
    match v {
        ValueModel::Array(a) => if a.len() > 0 {
            unsigned_words(a)
        } else {
            None
        },
        _ => match v.unsigned() {
            Some(n) => Some(seq![n]),
            None => None,
        },
    }
}

/// The number of bits that each word of a value gives: the width of the base
/// type of its first element.
pub open spec fn bit_width(v: ValueModel) -> int {
    8 * v.base_type().spec_size()
}

/// The bit at position `i` of the stream that `words` of `per` bits make.
pub open spec fn bit_at(words: Seq<u64>, per: int, i: int) -> u64 {
    ((words[i / per] as nat / pow2((i % per) as nat)) % 2) as u64
}

/// The number that the `k` bits from position `start` on stand for, the
/// first bit the lowest.
pub open spec fn bits_value(words: Seq<u64>, per: int, start: int, k: nat) -> nat
    decreases k,
{
    if k == 0 {
        0
    } else {
        (bits_value(words, per, start, (k - 1) as nat) + bit_at(words, per, start + k - 1) * pow2(
            (k - 1) as nat,
        )) as nat
    }
}

/// The value of `k` bits is below `2^k`.
pub proof fn lemma_bits_value_bound(words: Seq<u64>, per: int, start: int, k: nat)
    ensures
        bits_value(words, per, start, k) < pow2(k),
    decreases k,
{
    if k == 0 {
        vstd::arithmetic::power2::lemma2_to64();
    } else {
        lemma_bits_value_bound(words, per, start, (k - 1) as nat);
        vstd::arithmetic::power2::lemma_pow2_unfold(k);
        let b = bit_at(words, per, start + k - 1);
        let p = pow2((k - 1) as nat);
        assert(b * p <= p) by (nonlinear_arith)
            requires
                b <= 1,
                p >= 0,
        ;
    }
}

/// The words of a value, the number of bits that each gives, and how many
/// bits of all of them are consumed.
pub struct BitReader {
    pub bytes: Vec<u64>,
    pub per_size: usize,
    pub consumed: usize,
    pub total: usize,
}

impl BitReader {
    /// Whether the reader is in order: every word gives between 1 and 64
    /// bits, and no more bits are consumed than there are.
    pub open spec fn wf(&self) -> bool {
        &&& 1 <= self.per_size <= 64
        &&& self.total == self.per_size * self.bytes@.len()
        &&& self.consumed <= self.total
    }

    /// Whether a reader can be made of the value: it gives words, and their
    /// bits can be counted in a machine word.
    pub open spec fn accepts(v: ValueModel) -> bool {
        bit_words(v) matches Some(w) && bit_width(v) * w.len() <= usize::MAX
    }

    /// Makes a reader of a value, where [`BitReader::accepts`] holds of it.
    #[verifier::loop_isolation(false)]
    pub fn try_new(value: &Value) -> (r: Option<BitReader>)
        ensures
            r is Some <==> BitReader::accepts(value@),
            r matches Some(reader) ==> reader.wf() && Some(reader.bytes@) == bit_words(value@)
                && reader.per_size == bit_width(value@) && reader.consumed == 0,
    {
        let mut bytes: Vec<u64> = Vec::new();
        let width: usize;
        match value {
            Value::Array(a) => {
                proof {
                    lemma_array_model(*a);
                }
                if a.len() == 0 {
                    return None;
                }
                let mut i: usize = 0;
                while i < a.len()
                    invariant
                        i <= a.len(),
                        bytes.len() == i,
                        forall|j: int| 0 <= j < i ==> a[j]@.unsigned() == Some(#[trigger] bytes[j]),
                    decreases a.len() - i,
                {
                    match a[i].unsigned() {
                        Some(n) => bytes.push(n),
                        None => {
                            assert(value_models(a@)[i as int] == a[i as int]@);
                            assert(value_models(a@)[i as int].unsigned() is None);
                            return None;
                        },
                    }
                    i += 1;
                }
                proof {
                    assert forall|j: int| 0 <= j < a.len() implies (#[trigger] value_models(
                        a@,
                    )[j]).unsigned() is Some by {
                        assert(a[j]@.unsigned() == Some(bytes[j]));
                    }
                    assert(unsigned_words(value_models(a@)).unwrap() =~= bytes@);
                    assert(value_models(a@)[0] == a[0]@);
                    assert(a[0]@.unsigned() == Some(bytes[0]));
                }
                width = a[0].base_type().size() as usize * 8;
            },
            _ => {
                match value.unsigned() {
                    Some(n) => {
                        bytes.push(n);
                        assert(bytes@ =~= seq![n]);
                    },
                    None => {
                        return None;
                    },
                }
                width = value.base_type().size() as usize * 8;
            },
        }
        let total = match width.checked_mul(bytes.len()) {
            Some(t) => t,
            None => {
                return None;
            },
        };
        Some(BitReader { per_size: width, consumed: 0, total, bytes })
    }

    /// Makes a reader of an unsigned integer or of an array of them.
    pub fn new(value: Value) -> (r: BitReader)
        requires
            BitReader::accepts(value@),
        ensures
            r.wf(),
            Some(r.bytes@) == bit_words(value@),
            r.per_size == bit_width(value@),
            r.consumed == 0,
    {
        BitReader::try_new(&value).unwrap()
    }

    /// Whether a bit is left.
    pub fn available(&self) -> (r: bool)
        ensures
            r == (self.consumed < self.total),
    {
        self.consumed < self.total
    }

    /// Reads one bit, if one is left.
    pub fn next(&mut self) -> (r: Option<u8>)
        requires
            old(self).wf(),
        ensures
            final(self).wf(),
            final(self).bytes == old(self).bytes,
            final(self).per_size == old(self).per_size,
            final(self).total == old(self).total,
            old(self).consumed < old(self).total ==> r == Some(
                bit_at(old(self).bytes@, old(self).per_size as int, old(self).consumed as int) as u8,
            ) && final(self).consumed == old(self).consumed + 1,
            old(self).consumed >= old(self).total ==> r is None && final(self).consumed == old(
                self,
            ).consumed,
    {
        if !self.available() {
            return None;
        }
        let index = self.consumed / self.per_size;
        let shift = self.consumed % self.per_size;
        proof {
            let c = self.consumed as int;
            let p = self.per_size as int;
            let n = self.bytes@.len() as int;
            assert(index < n) by (nonlinear_arith)
                requires
                    c < p * n,
                    index == c / p,
                    p > 0,
            ;
        }
        let word = self.bytes[index];
        let shifted = word >> (shift as u64);
        proof {
            vstd::bits::lemma_u64_shr_is_div(word, shift as u64);
            assert(shifted & 1 == shifted % 2) by (bit_vector);
        }
        let bit = (shifted & 1) as u8;
        self.consumed = self.consumed + 1;
        Some(bit)
    }

    /// Reads `len` bits as a number, the first bit the lowest. Where fewer
    /// are left, it reads them all and returns none.
    pub fn read_bits(&mut self, len: usize) -> (r: Option<u64>)
        requires
            old(self).wf(),
            len <= 64,
        ensures
            final(self).wf(),
            final(self).bytes == old(self).bytes,
            final(self).per_size == old(self).per_size,
            final(self).total == old(self).total,
            old(self).consumed + len <= old(self).total ==> r == Some(
                bits_value(
                    old(self).bytes@,
                    old(self).per_size as int,
                    old(self).consumed as int,
                    len as nat,
                ) as u64,
            ) && final(self).consumed == old(self).consumed + len,
            old(self).consumed + len > old(self).total ==> r is None && final(self).consumed
                == old(self).total,
    {
        let mut value: u64 = 0;
        let mut i: usize = 0;
        let ghost start = self.consumed as int;
        let ghost words = self.bytes@;
        let ghost per = self.per_size as int;
        while i < len
            invariant
                self.wf(),
                self.bytes@ == words,
                self.bytes == old(self).bytes,
                self.per_size == per,
                self.per_size == old(self).per_size,
                self.total == old(self).total,
                start == old(self).consumed,
                i <= len <= 64,
                self.consumed == start + i,
                value == bits_value(words, per, start, i as nat),
            decreases len - i,
        {
            let bit = match self.next() {
                Some(bit) => bit,
                None => {
                    return None;
                },
            };
            proof {
                lemma_bits_value_bound(words, per, start, i as nat);
                vstd::bits::lemma_u64_pow2_no_overflow(i as nat);
                vstd::arithmetic::power2::lemma_pow2_pos(i as nat);
                let p = pow2(i as nat);
                assert(bit * p <= p) by (nonlinear_arith)
                    requires
                        bit <= 1,
                        p >= 0,
                ;
                vstd::bits::lemma_u64_shl_is_mul(bit as u64, i as u64);
                if i < 63 {
                    vstd::arithmetic::power2::lemma_pow2_unfold((i + 1) as nat);
                    vstd::bits::lemma_u64_pow2_no_overflow((i + 1) as nat);
                } else {
                    vstd::arithmetic::power2::lemma2_to64();
                    vstd::arithmetic::power2::lemma2_to64_rest();
                }
            }
            value = value + ((bit as u64) << (i as u64));
            i += 1;
        }
        Some(value)
    }
}

} // verus!

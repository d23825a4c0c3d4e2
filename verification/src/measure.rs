//! Measured numbers: qualities, times, scores.
//!
//! The arithmetic on them is done elsewhere, in binary floating point. What is
//! decided here needs their order alone, so a number is held as the integer
//! that takes its place in that order.

use vstd::prelude::*;

verus! {

/// The magnitude of positive infinity in the bits of a double.
pub const INFINITY_BITS: u64 = 0x7ff0_0000_0000_0000;

/// The sign bit of a double.
pub const SIGN_BIT: u64 = 0x8000_0000_0000_0000;

/// A double that is a number. `key` is the integer value of its bits without
/// the sign, negative where the sign bit is set; so the numbers are ordered as
/// their keys are, and both zeros are one.
#[derive(Clone, Copy, Debug, PartialEq, Eq, Structural)]
pub struct Measure {
    pub key: i64,
}

/// The bits of a double without the sign.
pub open spec fn magnitude(bits: u64) -> int {
    if bits >= SIGN_BIT {
        bits - SIGN_BIT
    } else {
        bits as int
    }
}

/// Whether the bits of a double are those of a number.
pub open spec fn is_number(bits: u64) -> bool {
    magnitude(bits) <= INFINITY_BITS
}

/// The key of the double with these bits.
pub open spec fn key_of(bits: u64) -> int {
    if bits >= SIGN_BIT {
        -magnitude(bits)
    } else {
        magnitude(bits)
    }
}

impl Measure {
    /// Zero.
    pub open spec fn spec_zero() -> Measure {
        Measure { key: 0 }
    }

    /// Zero.
    pub fn zero() -> (r: Measure)
        ensures
            r == Measure::spec_zero(),
    {
        Measure { key: 0 }
    }

    /// Whether this stands for a double.
    pub open spec fn wf(self) -> bool {
        -INFINITY_BITS <= self.key <= INFINITY_BITS
    }

    /// The number with these bits, unless they are those of no number.
    pub fn from_bits(bits: u64) -> (r: Option<Measure>)
        ensures
            r is Some <==> is_number(bits),
            r matches Some(m) ==> m.key == key_of(bits) && m.wf(),
    {
        if bits >= SIGN_BIT {
            let size: u64 = bits - SIGN_BIT;
            if size > INFINITY_BITS {
                None
            } else {
                Some(Measure { key: -(size as i64) })
            }
        } else if bits > INFINITY_BITS {
            None
        } else {
            Some(Measure { key: bits as i64 })
        }
    }

    /// The bits of this number.
    pub fn to_bits(self) -> (r: u64)
        requires
            self.wf(),
        ensures
            is_number(r),
            key_of(r) == self.key,
            r >= SIGN_BIT <==> self.key < 0,
    {
        if self.key < 0 {
            let size: i64 = -self.key;
            size as u64 + SIGN_BIT
        } else {
            self.key as u64
        }
    }

    /// Whether this is the smaller number.
    pub fn less(self, other: Measure) -> (r: bool)
        ensures
            r == (self.key < other.key),
    {
        self.key < other.key
    }

    /// Whether this is the other number or a greater one.
    pub fn at_least(self, other: Measure) -> (r: bool)
        ensures
            r == (self.key >= other.key),
    {
        self.key >= other.key
    }
}

/// Whether `r` is the greatest of `first` and some others.
pub open spec fn is_greatest(r: Measure, first: Measure, others: Seq<Measure>) -> bool {
    &&& r == first || others.contains(r)
    &&& first.key <= r.key
    &&& forall|i: int| 0 <= i < others.len() ==> (#[trigger] others[i]).key <= r.key
}

/// There is one greatest number, and it reaches a threshold where any of the
/// numbers does.
pub proof fn greatest_decides_threshold(
    r: Measure,
    again: Measure,
    first: Measure,
    others: Seq<Measure>,
    threshold: Measure,
)
    requires
        is_greatest(r, first, others),
        is_greatest(again, first, others),
    ensures
        again == r,
        r.key >= threshold.key <==> first.key >= threshold.key || exists|i: int|
            0 <= i < others.len() && (#[trigger] others[i]).key >= threshold.key,
{
    if r != first {
        let i = choose|i: int| 0 <= i < others.len() && others[i] == r;
        assert(others[i].key <= again.key);
    }
    if again != first {
        let i = choose|i: int| 0 <= i < others.len() && others[i] == again;
        assert(others[i].key <= r.key);
    }
}

/// The greatest of `first` and some others.
pub fn greatest(first: Measure, others: &Vec<Measure>) -> (r: Measure)
    ensures
        is_greatest(r, first, others@),
{
    let mut r = first;
    let mut i: usize = 0;
    while i < others.len()
        invariant
            i <= others@.len(),
            is_greatest(r, first, others@.take(i as int)),
        decreases others.len() - i,
    {
        let ghost before = others@.take(i as int);
        let ghost now = others@.take(i + 1);
        let ghost was = r;
        if r.less(others[i]) {
            r = others[i];
        }
        proof {
            assert(now[i as int] == others@[i as int]);
            if was != first {
                let k = choose|k: int| 0 <= k < before.len() && before[k] == was;
                assert(now[k] == was);
            }
            assert forall|k: int| 0 <= k < now.len() implies (#[trigger] now[k]).key <= r.key by {
                if k < i {
                    assert(now[k] == before[k]);
                }
            }
        }
        i += 1;
    }
    assert(others@.take(others@.len() as int) =~= others@);
    r
}

/// The bits of a number can be told from its key, but for the sign of zero.
pub proof fn key_gives_back_bits(bits: u64, again: u64)
    requires
        is_number(bits),
        key_of(again) == key_of(bits),
        again >= SIGN_BIT <==> key_of(bits) < 0,
    ensures
        again == bits || bits == SIGN_BIT,
{
}

/// The bits of a number are those of a magnitude up to infinity, with a sign or
/// without one.
pub proof fn numbers_end_at_infinity(bits: u64)
    ensures
        is_number(bits) <==> bits <= 0x7ff0_0000_0000_0000 || 0x8000_0000_0000_0000 <= bits
            <= 0xfff0_0000_0000_0000,
{
}

/// Numbers without a sign are in the order of their bits, those with one in the
/// reverse order and below all others, but that both zeros are equal.
pub proof fn keys_are_ordered_as_numbers(a: u64, b: u64)
    ensures
        a < SIGN_BIT && b < SIGN_BIT ==> (key_of(a) < key_of(b) <==> a < b),
        a >= SIGN_BIT && b >= SIGN_BIT ==> (key_of(a) < key_of(b) <==> a > b),
        a >= SIGN_BIT && b < SIGN_BIT ==> key_of(a) <= key_of(b),
        key_of(0) == 0 && key_of(SIGN_BIT) == 0,
        a >= SIGN_BIT && a != SIGN_BIT ==> key_of(a) < 0,
        a < SIGN_BIT ==> key_of(a) == a,
        Measure::spec_zero().key == 0,
{
}

} // verus!

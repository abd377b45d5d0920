//! A growable sequence of bits, stored by the `bitvec` crate.

use bitvec::field::BitField;
use bitvec::order::Lsb0;
use bitvec::vec::BitVec;
use vstd::arithmetic::power2::pow2;
use vstd::prelude::*;

verus! {

/// A sequence of bits, numbered from zero.
///
/// The bits live in a [`BitVec`] that counts from the least significant bit
/// of each storage word. Verification sees the sequence only through
/// [`bits_of`] and the contracts of the functions below.
#[verifier::external_body]
#[derive(Debug)]
pub struct Bits {
    inner: BitVec<usize, Lsb0>,
}

/// The bits that a [`Bits`] holds, in the order of their indices.
pub uninterp spec fn bits_of(b: Bits) -> Seq<bool>;

impl View for Bits {
    type V = Seq<bool>;

    open spec fn view(&self) -> Seq<bool> {
        bits_of(*self)
    }
}

/// The number that a sequence of bits spells when its first bit is the least
/// significant one.
pub open spec fn le_value(s: Seq<bool>) -> nat
    decreases s.len(),
{
    if s.len() == 0 {
        0
    } else {
        (if s[0] {
            1nat
        } else {
            0nat
        }) + 2 * le_value(s.drop_first())
    }
}

/// The number of bits of a sequence that are set.
pub open spec fn ones(s: Seq<bool>) -> nat
    decreases s.len(),
{
    if s.len() == 0 {
        0
    } else {
        ones(s.drop_last()) + if s.last() {
            1nat
        } else {
            0nat
        }
    }
}

/// No more bits are set than there are; all are set where as many are set
/// as there are, and none is where the number is zero.
pub proof fn lemma_ones(s: Seq<bool>)
    ensures
        ones(s) <= s.len(),
        ones(s) == s.len() <==> forall|i: int| 0 <= i < s.len() ==> s[i],
        ones(s) == 0 <==> forall|i: int| 0 <= i < s.len() ==> !s[i],
    decreases s.len(),
{
    if s.len() > 0 {
        let rest = s.drop_last();
        lemma_ones(rest);
        if forall|i: int| 0 <= i < s.len() ==> s[i] {
            assert forall|i: int| 0 <= i < rest.len() implies rest[i] by {
                assert(s[i]);
            }
        }
        if forall|i: int| 0 <= i < s.len() ==> !s[i] {
            assert forall|i: int| 0 <= i < rest.len() implies !rest[i] by {
                assert(!s[i]);
            }
        }
        if ones(s) == s.len() {
            assert forall|i: int| 0 <= i < s.len() implies s[i] by {
                if i < rest.len() {
                    assert(rest[i]);
                }
            }
        }
        if ones(s) == 0 {
            assert forall|i: int| 0 <= i < s.len() implies !s[i] by {
                if i < rest.len() {
                    assert(!rest[i]);
                }
            }
        }
    }
}

/// The most bits that one [`Bits`] can hold.
pub open spec fn max_bits() -> nat {
    (usize::MAX / 8) as nat
}

/// `s` moved by `n` places away from index zero: the first `n` places hold
/// zeros, and the last `n` bits of `s` are lost.
pub open spec fn shifted_up(s: Seq<bool>, n: nat) -> Seq<bool> {
    Seq::new(
        s.len(),
        |i: int|
            if i < n {
                false
            } else {
                s[i - n]
            },
    )
}

/// `s` turned by `n` places towards index zero: the first `n` bits of `s`
/// come last.
pub open spec fn rotated_down(s: Seq<bool>, n: nat) -> Seq<bool> {
    s.subrange(n as int, s.len() as int) + s.subrange(0, n as int)
}

impl Bits {
    /// Calls `BitVec::repeat`, which makes a bit-vector of `len` copies of
    /// `bit`. It panics for a length over the greatest that a bit-vector can
    /// describe, an eighth of the range of `usize`.
    #[verifier::external_body]
    fn bv_repeat(bit: bool, len: usize) -> (r: Bits)
        requires
            len <= max_bits(),
        ensures
            bits_of(r) == Seq::new(len as nat, |i: int| bit),
    {
        Bits { inner: BitVec::repeat(bit, len) }
    }

    /// Calls `BitVec::new`, which makes an empty bit-vector.
    #[verifier::external_body]
    fn bv_new() -> (r: Bits)
        ensures
            bits_of(r) == Seq::<bool>::empty(),
    {
        Bits { inner: BitVec::new() }
    }

    /// Calls `BitVec::len`, the number of bits held; a bit-vector never holds
    /// more than an eighth of the range of `usize`.
    #[verifier::external_body]
    fn bv_len(&self) -> (r: usize)
        ensures
            r == bits_of(*self).len(),
            r <= max_bits(),
    {
        self.inner.len()
    }

    /// Indexes the bit-vector with a `usize`, which reads one bit and panics
    /// past the end.
    #[verifier::external_body]
    fn bv_index(&self, index: usize) -> (r: bool)
        requires
            index < bits_of(*self).len(),
        ensures
            r == bits_of(*self)[index as int],
    {
        self.inner[index]
    }

    /// Calls `BitSlice::set`, which writes one bit and leaves the others; it
    /// panics past the end.
    #[verifier::external_body]
    fn bv_set(&mut self, index: usize, value: bool)
        requires
            index < bits_of(*old(self)).len(),
        ensures
            bits_of(*final(self)) == bits_of(*old(self)).update(index as int, value),
    {
        self.inner.set(index, value)
    }

    /// Calls `BitVec::push`, which appends one bit. It panics when the
    /// bit-vector is already at its greatest length.
    #[verifier::external_body]
    fn bv_push(&mut self, value: bool)
        requires
            bits_of(*old(self)).len() < max_bits(),
        ensures
            bits_of(*final(self)) == bits_of(*old(self)).push(value),
    {
        self.inner.push(value)
    }

    /// Calls `BitSlice::shift_end`, which moves the bits away from index
    /// zero by `by` places and clears the places that they leave. It panics
    /// when `by` is over the length.
    #[verifier::external_body]
    fn bv_shift_end(&mut self, by: usize)
        requires
            by <= bits_of(*old(self)).len(),
        ensures
            bits_of(*final(self)) == shifted_up(bits_of(*old(self)), by as nat),
    {
        self.inner.shift_end(by)
    }

    /// Calls `BitSlice::rotate_left`, which splits the bits at `by` and
    /// exchanges the two pieces. It panics when `by` is over the length.
    #[verifier::external_body]
    fn bv_rotate_left(&mut self, by: usize)
        requires
            by <= bits_of(*old(self)).len(),
        ensures
            bits_of(*final(self)) == rotated_down(bits_of(*old(self)), by as nat),
    {
        self.inner.rotate_left(by)
    }

    /// Calls `BitField::load_le` on the bits from `start` up to `end`, which
    /// reads them as an unsigned number whose least significant bit is the
    /// one at `start`. It panics on no bits and on more bits than a `usize`
    /// has.
    #[verifier::external_body]
    fn bv_load_le(&self, start: usize, end: usize) -> (r: usize)
        requires
            start < end <= bits_of(*self).len(),
            end - start <= usize::BITS,
        ensures
            r == le_value(bits_of(*self).subrange(start as int, end as int)),
    {
        self.inner[start..end].load_le::<usize>()
    }

    /// Calls `BitField::store_le` on the bits from `start` up to `end`, which
    /// writes the low bits of `value` into them, the least significant one
    /// at `start`, and leaves the other bits alone. It panics on no bits and
    /// on more bits than a `usize` has.
    #[verifier::external_body]
    fn bv_store_le(&mut self, start: usize, end: usize, value: usize)
        requires
            start < end <= bits_of(*old(self)).len(),
            end - start <= usize::BITS,
        ensures
            bits_of(*final(self)).len() == bits_of(*old(self)).len(),
            forall|i: int|
                0 <= i < start || end <= i < bits_of(*old(self)).len() ==> bits_of(*final(self))[i]
                    == bits_of(*old(self))[i],
            le_value(bits_of(*final(self)).subrange(start as int, end as int)) == value as nat
                % pow2((end - start) as nat),
    {
        self.inner[start..end].store_le::<usize>(value)
    }

    /// Calls `BitSlice::count_ones`, the number of bits that are set.
    #[verifier::external_body]
    fn bv_count_ones(&self) -> (r: usize)
        ensures
            r == ones(bits_of(*self)),
    {
        self.inner.count_ones()
    }

    /// Calls `BitSlice::count_zeros`, the number of bits that are clear.
    #[verifier::external_body]
    fn bv_count_zeros(&self) -> (r: usize)
        ensures
            r == bits_of(*self).len() - ones(bits_of(*self)),
    {
        self.inner.count_zeros()
    }

    /// Make `len` bits, all of them clear.
    pub fn zeros(len: usize) -> (r: Bits)
        requires
            len <= max_bits(),
        ensures
            r@.len() == len,
            forall|i: int| 0 <= i < len ==> !r@[i],
    {
        Bits::bv_repeat(false, len)
    }

    /// Make an empty sequence of bits.
    pub fn new() -> (r: Bits)
        ensures
            r@.len() == 0,
    {
        Bits::bv_new()
    }

    /// The number of bits.
    pub fn len(&self) -> (r: usize)
        ensures
            r == self@.len(),
            r <= max_bits(),
    {
        self.bv_len()
    }

    /// Read the bit at `index`.
    pub fn get(&self, index: usize) -> (r: bool)
        requires
            index < self@.len(),
        ensures
            r == self@[index as int],
    {
        self.bv_index(index)
    }

    /// Write the bit at `index`.
    pub fn set(&mut self, index: usize, value: bool)
        requires
            index < old(self)@.len(),
        ensures
            final(self)@ == old(self)@.update(index as int, value),
    {
        self.bv_set(index, value)
    }

    /// Append one bit.
    pub fn push(&mut self, value: bool)
        requires
            old(self)@.len() < max_bits(),
        ensures
            final(self)@ == old(self)@.push(value),
    {
        self.bv_push(value)
    }

    /// Write the low bits of `value` into the bits from `start` up to `end`,
    /// the least significant one at `start`.
    pub fn store(&mut self, start: usize, end: usize, value: usize)
        requires
            start < end <= old(self)@.len(),
            end - start <= usize::BITS,
        ensures
            final(self)@.len() == old(self)@.len(),
            forall|i: int|
                0 <= i < start || end <= i < old(self)@.len() ==> final(self)@[i] == old(self)@[i],
            le_value(final(self)@.subrange(start as int, end as int)) == value as nat % pow2(
                (end - start) as nat,
            ),
    {
        self.bv_store_le(start, end, value)
    }

    /// Count the bits that are set.
    pub fn count_ones(&self) -> (r: usize)
        ensures
            r == ones(self@),
            r <= self@.len(),
    {
        proof {
            lemma_ones(self@);
        }
        self.bv_count_ones()
    }

    /// Count the bits that are clear.
    pub fn count_zeros(&self) -> (r: usize)
        ensures
            r == self@.len() - ones(self@),
    {
        self.bv_count_zeros()
    }

    /// Move the bits by `by` places away from index zero.
    pub fn shift_up(&mut self, by: usize)
        requires
            by <= old(self)@.len(),
        ensures
            final(self)@ == shifted_up(old(self)@, by as nat),
    {
        self.bv_shift_end(by)
    }

    /// Turn the bits by `by` places towards index zero.
    pub fn rotate_down(&mut self, by: usize)
        requires
            by <= old(self)@.len(),
        ensures
            final(self)@ == rotated_down(old(self)@, by as nat),
    {
        self.bv_rotate_left(by)
    }

    /// Read the bits from `start` up to `end` as a number, the bit at `start`
    /// being the least significant.
    pub fn load(&self, start: usize, end: usize) -> (r: usize)
        requires
            start < end <= self@.len(),
            end - start <= usize::BITS,
        ensures
            r == le_value(self@.subrange(start as int, end as int)),
    {
        self.bv_load_le(start, end)
    }
}

} // verus!

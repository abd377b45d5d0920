//! Registers of branch history.

use std::ops::RangeInclusive;
use vstd::arithmetic::div_mod::lemma_small_mod;
use vstd::arithmetic::power2::{lemma_pow2_pos, pow2};
use vstd::bits::lemma_usize_low_bits_mask_is_mod;
use vstd::prelude::*;

use crate::chance::lemma_weight_is_pow2;

use crate::bits::{le_value, max_bits, rotated_down, shifted_up, Bits};
use crate::predictor::table::{low_mask, mask_of};

verus! {

/// `RangeInclusive::start` returns the lower bound of a range that no
/// iteration has used up.
pub assume_specification<Idx>[ RangeInclusive::<Idx>::start ](r: &RangeInclusive<Idx>) -> (ret:
    &Idx)
    ensures
        !r@.exhausted ==> *ret == r@.start,
;

/// `RangeInclusive::end` returns the upper bound of a range that no
/// iteration has used up.
pub assume_specification<Idx>[ RangeInclusive::<Idx>::end ](r: &RangeInclusive<Idx>) -> (ret:
    &Idx)
    ensures
        !r@.exhausted ==> *ret == r@.end,
;

/// A range that names the bits `lo..=hi` of a register of `len` bits: it is
/// fresh, not empty, and ends inside the register.
pub open spec fn range_within(range: RangeInclusive<usize>, len: nat) -> bool {
    &&& !range@.exhausted
    &&& range@.start <= range@.end
    &&& range@.end < len
}

/// `acc` combined by XOR with each chunk of `s`, read as a number whose least
/// significant bit comes first. The chunks are `m` bits wide and follow one
/// another from the start of `s`; the last may be shorter.
pub open spec fn xor_chunks(acc: usize, s: Seq<bool>, m: nat) -> usize
    decreases s.len(),
{
    if s.len() == 0 || m == 0 {
        acc
    } else if s.len() <= m {
        acc ^ (le_value(s) as usize)
    } else {
        xor_chunks(acc ^ (le_value(s.take(m as int)) as usize), s.skip(m as int), m)
    }
}

/// The XOR of the consecutive `m`-bit chunks of `s`, as a number of `m` bits.
pub open spec fn xor_fold(s: Seq<bool>, m: usize) -> usize {
    xor_chunks(0, s, m as nat) & low_mask(m)
}

/// A word cut down to its low `n` bits is below two to the power of `n`.
pub proof fn lemma_fold_fits(word: usize, n: usize)
    requires
        n < usize::BITS,
    ensures
        (word & low_mask(n)) as nat % pow2(n as nat) == word & low_mask(n),
{
    lemma_weight_is_pow2(n);
    lemma_usize_low_bits_mask_is_mod(word, n as nat);
    lemma_pow2_pos(n as nat);
    lemma_small_mod((word & low_mask(n)) as nat, pow2(n as nat));
}

/// A register of history bits. Bit 0 is the newest.
#[derive(Debug)]
pub struct HistoryRegister {
    data: Bits,
}

impl View for HistoryRegister {
    type V = Seq<bool>;

    closed spec fn view(&self) -> Seq<bool> {
        self.data@
    }
}

impl HistoryRegister {
    /// Create a register with the specified length in bits.
    /// All bits in the register are initialized to zero.
    pub fn new(len: usize) -> (r: Self)
        requires
            len <= max_bits(),
        ensures
            r@.len() == len,
            forall|i: int| 0 <= i < len ==> !r@[i],
    {
        Self { data: Bits::zeros(len) }
    }

    /// Return the length of the register in bits.
    pub fn len(&self) -> (r: usize)
        ensures
            r == self@.len(),
            r <= max_bits(),
    {
        self.data.len()
    }

    /// Return a reference to the bits of the register.
    pub fn data(&self) -> (r: &Bits)
        ensures
            r@ == self@,
    {
        &self.data
    }

    /// Return a mutable reference to the bits of the register: this is the
    /// way to write the newest bit after a shift.
    pub fn data_mut(&mut self) -> (r: &mut Bits)
        ensures
            r@ == old(self)@,
            final(self)@ == final(r)@,
    {
        &mut self.data
    }

    /// Shift the register by 'n' bits.
    /// The bottom 'n' bits become zero, and the top 'n' bits are discarded.
    pub fn shift_by(&mut self, n: usize)
        requires
            n <= old(self)@.len(),
        ensures
            final(self)@ == shifted_up(old(self)@, n as nat),
    {
        self.data.shift_up(n);
    }

    /// Return some slice of bits.
    pub fn read(&self, range: RangeInclusive<usize>) -> (r: Vec<bool>)
        requires
            range_within(range, self@.len()),
        ensures
            r@ == self@.subrange(range@.start as int, range@.end + 1),
    {
        let lo = *range.start();
        let hi = *range.end();
        let len = self.data.len();
        let mut out: Vec<bool> = Vec::new();
        let mut pos: usize = lo;
        while pos <= hi
            invariant
                lo <= pos <= hi + 1,
                hi < self@.len(),
                self@.len() <= max_bits(),
                out@ == self@.subrange(lo as int, pos as int),
            decreases hi + 1 - pos,
        {
            out.push(self.data.get(pos));
            pos = pos + 1;
        }
        out
    }

    /// Fold [with XOR] some slice of bits.
    pub fn fold(&self, range: RangeInclusive<usize>, output_bits: usize) -> (r: usize)
        requires
            range_within(range, self@.len()),
            0 < output_bits < usize::BITS,
        ensures
            r == xor_fold(self@.subrange(range@.start as int, range@.end + 1), output_bits),
    {
        let lo = *range.start();
        let hi = *range.end();
        let len = self.data.len();
        let end = hi + 1;
        let output_mask: usize = mask_of(output_bits);
        let ghost window = self@.subrange(lo as int, end as int);
        let mut res: usize = 0;
        let mut pos: usize = lo;
        assert(window.skip(0) == window);
        while pos < end
            invariant
                lo <= pos <= end <= self@.len(),
                0 < output_bits < usize::BITS,
                window == self@.subrange(lo as int, end as int),
                xor_chunks(res, window.skip(pos - lo), output_bits as nat) == xor_chunks(
                    0,
                    window,
                    output_bits as nat,
                ),
            decreases end - pos,
        {
            let stop = if end - pos > output_bits {
                pos + output_bits
            } else {
                end
            };
            let val = self.data.load(pos, stop);
            proof {
                let rest = window.skip(pos - lo);
                if end - pos > output_bits {
                    assert(rest.take(output_bits as int) == self@.subrange(pos as int, stop as int));
                    assert(rest.skip(output_bits as int) == window.skip(stop - lo));
                } else {
                    assert(rest == self@.subrange(pos as int, stop as int));
                    assert(window.skip(stop - lo).len() == 0);
                }
            }
            res = res ^ val;
            pos = stop;
        }
        res & output_mask
    }
}

/// The folded register after one step of history: each of the bits at index
/// 0 and at index `wrap` takes up a bit of history, the first `newest` and
/// the second `oldest`; the register is turned by one place, so that bit 0
/// becomes the last bit; and the two bits are written back to the indices
/// that they came from, the one at `wrap` last.
pub open spec fn folded_step(csr: Seq<bool>, newest: bool, oldest: bool, wrap: int) -> Seq<bool> {
    rotated_down(csr, 1).update(0, csr[0] != newest).update(wrap, csr[wrap] != oldest)
}

/// A circular shift register used to track folded history.
///
/// This folds some global history into 'size' bits, but without the need to
/// actually read all of the history bits and fold them all together with XOR.
///
/// This strategy is supposed to mirror the hardware implementation described
/// in "BADGR: A Practical GHR Implementation for TAGE Branch Predictors"
/// (Schlais and Lipasti, 2016).
///
/// [`Self::update`] takes up one bit of history in constant time, by the
/// rule of [`folded_step`]. The rule does not in every case leave the
/// register equal to the XOR of the chunks of the window;
/// [`Self::refold`] computes that XOR from scratch.
#[derive(Debug)]
pub struct FoldedHistoryRegister {
    data: Bits,
    /// The size of the output [in bits].
    output_size: usize,
    /// The first bit in global history to-be-folded.
    lo: usize,
    /// The last bit in global history to-be-folded.
    hi: usize,
}

impl FoldedHistoryRegister {
    /// The bits of the register.
    pub closed spec fn bits(&self) -> Seq<bool> {
        self.data@
    }

    /// The size of the output [in bits].
    pub closed spec fn size(&self) -> usize {
        self.output_size
    }

    /// The index in global history of the newest bit to-be-folded.
    pub closed spec fn window_start(&self) -> usize {
        self.lo
    }

    /// The index in global history of the oldest bit to-be-folded.
    pub closed spec fn window_end(&self) -> usize {
        self.hi
    }

    /// The index inside the register at which the window wraps around:
    /// the distance between the window's ends, modulo the register's size.
    pub open spec fn wrap_index(&self) -> int {
        (self.window_end() - self.window_start()) % (self.size() as int)
    }

    /// The register holds as many bits as its output has.
    pub open spec fn wf(&self) -> bool {
        self.bits().len() == self.size()
    }

    /// The register can take up the history in `ghr`: it has an output of
    /// at least one bit, and its window is not empty and lies inside `ghr`.
    pub open spec fn accepts(&self, ghr: &HistoryRegister) -> bool {
        &&& self.wf()
        &&& self.size() > 0
        &&& self.window_start() <= self.window_end() < ghr@.len()
    }

    /// Create a clear register of `output_size` bits that folds the bits
    /// `ghist_range` of global history.
    pub fn new(output_size: usize, ghist_range: RangeInclusive<usize>) -> (r: Self)
        requires
            output_size <= max_bits(),
            !ghist_range@.exhausted,
        ensures
            r.wf(),
            r.size() == output_size,
            r.window_start() == ghist_range@.start,
            r.window_end() == ghist_range@.end,
            forall|i: int| 0 <= i < output_size ==> !r.bits()[i],
    {
        Self {
            data: Bits::zeros(output_size),
            output_size,
            lo: *ghist_range.start(),
            hi: *ghist_range.end(),
        }
    }

    /// Return the indices in global history of the newest and of the oldest
    /// bit to-be-folded.
    pub fn window(&self) -> (r: (usize, usize))
        ensures
            r.0 == self.window_start(),
            r.1 == self.window_end(),
    {
        (self.lo, self.hi)
    }

    /// Return the folded history as a sequence of bits.
    pub fn output(&self) -> (r: &Bits)
        ensures
            r@ == self.bits(),
    {
        &self.data
    }

    /// Return the folded history as a [usize].
    pub fn output_usize(&self) -> (r: usize)
        requires
            self.wf(),
            0 < self.size() <= usize::BITS,
        ensures
            r == le_value(self.bits()),
    {
        assert(self.data@.subrange(0, self.output_size as int) == self.data@);
        self.data.load(0, self.output_size)
    }

    /// Fold the window of history in `ghr` from scratch: the register then
    /// reads what [`HistoryRegister::fold`] returns for the window and the
    /// size of the register.
    pub fn refold(&mut self, ghr: &HistoryRegister)
        requires
            old(self).accepts(ghr),
            old(self).size() < usize::BITS,
        ensures
            le_value(final(self).bits()) == xor_fold(
                ghr@.subrange(old(self).window_start() as int, old(self).window_end() + 1),
                old(self).size(),
            ),
            final(self).size() == old(self).size(),
            final(self).window_start() == old(self).window_start(),
            final(self).window_end() == old(self).window_end(),
            final(self).wf(),
    {
        let folded = ghr.fold(RangeInclusive::new(self.lo, self.hi), self.output_size);
        proof {
            lemma_fold_fits(
                xor_chunks(0, ghr@.subrange(self.lo as int, self.hi + 1), self.output_size as nat),
                self.output_size,
            );
        }
        self.data.store(0, self.output_size, folded);
        assert(self.data@.subrange(0, self.output_size as int) == self.data@);
    }

    /// Using some [HistoryRegister], update the folded history.
    pub fn update(&mut self, ghr: &HistoryRegister)
        requires
            old(self).accepts(ghr),
        ensures
            final(self).bits() == folded_step(
                old(self).bits(),
                ghr@[old(self).window_start() as int],
                ghr@[old(self).window_end() as int],
                old(self).wrap_index(),
            ),
            final(self).size() == old(self).size(),
            final(self).window_start() == old(self).window_start(),
            final(self).window_end() == old(self).window_end(),
            final(self).wf(),
    {
        let ghist_size = self.hi - self.lo;
        let index = ghist_size % self.output_size;

        let newest_bit = ghr.data().get(self.lo);
        let oldest_bit = ghr.data().get(self.hi);
        let first_bit = newest_bit ^ self.data.get(0);
        let last_bit = oldest_bit ^ self.data.get(index);

        // Rotate by one bit
        self.data.rotate_down(1);

        // The newest relevant history bit is XOR'ed with with the first bit
        self.data.set(0, first_bit);

        // The last relevant history bit will be XOR'ed with this bit
        self.data.set(index, last_bit);
    }
}

} // verus!

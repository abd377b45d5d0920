//! Traces of executed branches.

use vstd::prelude::*;

pub mod assembler;

use crate::branch::{BranchFlags, BranchRecord};

verus! {

/// The number of bytes that one record takes up in a trace: two 64-bit
/// words for the program counter and the target, one 32-bit word for the
/// flags, and four bytes that are not used.
pub const RECORD_BYTES: usize = 24;

/// The number that a sequence of bytes spells when its first byte is the
/// least significant one.
pub open spec fn le_bytes(s: Seq<u8>) -> nat
    decreases s.len(),
{
    if s.len() == 0 {
        0
    } else {
        s[0] as nat + 256 * le_bytes(s.drop_first())
    }
}

/// Two to the power of eight times `n`.
pub open spec fn pow256(n: nat) -> nat
    decreases n,
{
    if n == 0 {
        1
    } else {
        256 * pow256((n - 1) as nat)
    }
}

/// A number of `n` bytes is below two to the power of eight times `n`.
pub proof fn lemma_le_bytes_bound(s: Seq<u8>)
    ensures
        le_bytes(s) < pow256(s.len()),
    decreases s.len(),
{
    if s.len() > 0 {
        lemma_le_bytes_bound(s.drop_first());
    }
}

/// Read the bytes of `data` from `at` up to `at + n` as a number, the byte
/// at `at` being the least significant.
pub fn read_le(data: &Vec<u8>, at: usize, n: usize) -> (r: u64)
    requires
        n <= 8,
        at + n <= data@.len(),
    ensures
        r == le_bytes(data@.subrange(at as int, at + n)),
{
    let len = data.len();
    let mut val: u64 = 0;
    let mut i: usize = n;
    assert(data@.subrange(at + n, at + n).len() == 0);
    while i > 0
        invariant
            i <= n <= 8,
            at + n <= data@.len() <= usize::MAX,
            val == le_bytes(data@.subrange(at + i, at + n)),
        decreases i,
    {
        i = i - 1;
        proof {
            let next = data@.subrange(at + i, at + n);
            assert(next.drop_first() == data@.subrange(at + i + 1, at + n));
            assert(le_bytes(next) == next[0] as nat + 256 * val);
            lemma_le_bytes_bound(next);
            lemma_pow256_values();
            lemma_pow256_monotonic(next.len(), 8);
        }
        val = val * 256 + data[at + i] as u64;
    }
    val
}

/// The powers of 256 that bound a 32-bit and a 64-bit word.
pub proof fn lemma_pow256_values()
    ensures
        pow256(4) == 0x1_0000_0000,
        pow256(8) == 0x1_0000_0000_0000_0000,
{
    reveal_with_fuel(pow256, 9);
}

/// Powers of 256 do not go down.
pub proof fn lemma_pow256_monotonic(m: nat, n: nat)
    requires
        m <= n,
    ensures
        pow256(m) <= pow256(n),
        pow256(m) >= 1,
    decreases n,
{
    if m < n {
        lemma_pow256_monotonic(m, (n - 1) as nat);
    } else if m > 0 {
        lemma_pow256_monotonic((m - 1) as nat, (n - 1) as nat);
    }
}

/// The record that stands at position `i` in the bytes of a trace. A
/// program counter or a target that a machine word cannot hold is cut down
/// to the word.
pub open spec fn record_at(data: Seq<u8>, i: int) -> BranchRecord {
    let at = i * RECORD_BYTES as int;
    BranchRecord {
        pc: le_bytes(data.subrange(at, at + 8)) as usize,
        tgt: le_bytes(data.subrange(at + 8, at + 16)) as usize,
        flags: BranchFlags(le_bytes(data.subrange(at + 16, at + 20)) as u32),
    }
}

/// A list of the names of trace files, and the place of the next one to be
/// read.
pub struct BinaryTraceSet {
    /// A list of filenames
    pub files: Vec<String>,
    pub cur: usize,
    pub next: usize,
}

impl BinaryTraceSet {
    /// Make an empty list of trace files.
    pub fn new() -> (r: Self)
        ensures
            r.files@.len() == 0,
            r.cur == 0,
            r.next == 1,
    {
        Self { files: Vec::new(), cur: 0, next: 1 }
    }

    /// Make a list of the given trace files.
    pub fn new_from_slice(strings: &[String]) -> (r: Self)
        ensures
            r.files@.len() == strings@.len(),
            forall|i: int| 0 <= i < strings@.len() ==> (#[trigger] r.files@[i])@ == strings@[i]@,
            r.cur == 0,
            r.next == 1,
    {
        let mut files: Vec<String> = Vec::new();
        let mut i: usize = 0;
        while i < strings.len()
            invariant
                i <= strings@.len(),
                files@.len() == i,
                forall|j: int| 0 <= j < i ==> (#[trigger] files@[j])@ == strings@[j]@,
            decreases strings@.len() - i,
        {
            files.push(strings[i].clone());
            i = i + 1;
        }
        Self { files, cur: 0, next: 1 }
    }

    /// Add a trace file to the end of the list.
    pub fn add_file(&mut self, s: String)
        ensures
            final(self).files@ == old(self).files@.push(s),
            final(self).cur == old(self).cur,
            final(self).next == old(self).next,
    {
        self.files.push(s);
    }

    /// Return the name of the next trace file to be read, and move on to
    /// the one behind it; `None` once every file was named.
    pub fn next_file(&mut self) -> (r: Option<String>)
        requires
            old(self).cur <= old(self).files@.len(),
        ensures
            final(self).files == old(self).files,
            final(self).next == old(self).next,
            old(self).cur == old(self).files@.len() ==> r is None && final(self).cur == old(
                self,
            ).cur,
            old(self).cur < old(self).files@.len() ==> {
                &&& r matches Some(name)
                &&& name@ == old(self).files@[old(self).cur as int]@
                &&& final(self).cur == old(self).cur + 1
            },
    {
        if self.cur == self.files.len() {
            None
        } else {
            let name = self.files[self.cur].clone();
            self.cur = self.cur + 1;
            Some(name)
        }
    }
}

/// A trace generated with the 'dendrite' client for DynamoRIO.
pub struct BinaryTrace {
    pub data: Vec<u8>,
    pub name: String,
    /// Number of entries
    num_entries: usize,
}

impl BinaryTrace {
    /// The number of records.
    pub closed spec fn entries(&self) -> usize {
        self.num_entries
    }

    /// The bytes of the trace.
    pub closed spec fn bytes(&self) -> Seq<u8> {
        self.data@
    }

    /// The name of the trace.
    pub closed spec fn label(&self) -> Seq<char> {
        self.name@
    }

    /// The bytes of the trace are those of its records.
    pub open spec fn wf(&self) -> bool {
        self.bytes().len() == self.entries() * RECORD_BYTES
    }

    /// Create a [BinaryTrace] from the bytes of a file: `None` where they
    /// are not those of a whole number of records.
    pub fn from_bytes(data: Vec<u8>, name: String) -> (r: Option<Self>)
        ensures
            r is Some <==> data@.len() % (RECORD_BYTES as nat) == 0,
            r matches Some(trace) ==> {
                &&& trace.bytes() == data@
                &&& trace.label() == name@
                &&& trace.entries() == data@.len() / (RECORD_BYTES as nat)
                &&& trace.wf()
            },
    {
        let len = data.len();
        if len % RECORD_BYTES != 0 {
            return None;
        }
        let num_entries = len / RECORD_BYTES;
        Some(Self { data, num_entries, name })
    }

    /// Return the number of records
    pub fn num_entries(&self) -> (r: usize)
        ensures
            r == self.entries(),
    {
        self.num_entries
    }

    /// Return the name of the trace.
    pub fn name(&self) -> (r: &str)
        ensures
            r@ == self.label(),
    {
        self.name.as_str()
    }

    /// Read the record at position `i`.
    pub fn record(&self, i: usize) -> (r: BranchRecord)
        requires
            self.wf(),
            i < self.entries(),
        ensures
            r == record_at(self.bytes(), i as int),
    {
        let len = self.data.len();
        let at = i * RECORD_BYTES;
        let pc = read_le(&self.data, at, 8);
        let tgt = read_le(&self.data, at + 8, 8);
        let flags = read_le(&self.data, at + 16, 4);
        proof {
            lemma_le_bytes_bound(self.data@.subrange(at + 16, at + 20));
            lemma_pow256_values();
        }
        BranchRecord {
            pc: #[verifier::truncate]
            (pc as usize),
            tgt: #[verifier::truncate]
            (tgt as usize),
            flags: BranchFlags(flags as u32),
        }
    }

    /// Return a truncated list of records
    pub fn as_slice_trunc(&self, limit: usize) -> (r: Vec<BranchRecord>)
        requires
            self.wf(),
        ensures
            r@.len() == if self.entries() > limit {
                limit
            } else {
                self.entries()
            },
            forall|i: int| 0 <= i < r@.len() ==> #[trigger] r@[i] == record_at(self.bytes(), i),
    {
        let req_entries = if self.num_entries > limit {
            limit
        } else {
            self.num_entries
        };
        let mut out: Vec<BranchRecord> = Vec::new();
        let mut i: usize = 0;
        while i < req_entries
            invariant
                i <= req_entries <= self.entries(),
                self.wf(),
                out@.len() == i,
                forall|j: int| 0 <= j < i ==> #[trigger] out@[j] == record_at(self.bytes(), j),
            decreases req_entries - i,
        {
            out.push(self.record(i));
            i = i + 1;
        }
        out
    }

    /// Return a list of records.
    pub fn as_slice(&self) -> (r: Vec<BranchRecord>)
        requires
            self.wf(),
        ensures
            r@.len() == self.entries(),
            forall|i: int| 0 <= i < r@.len() ==> #[trigger] r@[i] == record_at(self.bytes(), i),
    {
        self.as_slice_trunc(self.num_entries)
    }
}

} // verus!

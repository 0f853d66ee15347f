//! A bit-level reader over an in-memory byte buffer, most significant bit
//! first.  Running out of bits is an explicit error, never silent zeros.
use crate::bits::bits_of_bytes;
use crate::bits::bits_val;
use crate::bits::pow2n;
use crate::CodecError;
use vstd::prelude::*;

verus! {

/// The length of the run of `false` bits in `s` starting at `i`.
pub open spec fn zeros_run(s: Seq<bool>, i: nat) -> nat
    decreases s.len() - i,
{
    if i >= s.len() {
        0
    } else if s[i as int] {
        0
    } else {
        1 + zeros_run(s, i + 1)
    }
}

/// The length of the run of `true` bits in `s` starting at `i`.
pub open spec fn ones_run(s: Seq<bool>, i: nat) -> nat
    decreases s.len() - i,
{
    if i >= s.len() {
        0
    } else if !s[i as int] {
        0
    } else {
        1 + ones_run(s, i + 1)
    }
}

/// A run of zeros closed by a one is counted exactly.
pub proof fn lemma_zeros_run_exact(s: Seq<bool>, c: nat, u: nat)
    requires
        c + u < s.len(),
        forall|k: int| c <= k < c + u ==> !(#[trigger] s[k]),
        s[(c + u) as int],
    ensures
        zeros_run(s, c) == u,
    decreases u,
{
    if u > 0 {
        lemma_zeros_run_exact(s, c + 1, (u - 1) as nat);
    }
}

/// Reads bits and fixed-width fields from a byte buffer, tracking a bit
/// cursor.  Every read fails with `UnexpectedEndOfInput` if the buffer is
/// exhausted before the request is satisfied.
pub struct BitReader {
    data: Vec<u8>,
    pos: usize,
}

impl BitReader {
    /// The whole bit string behind the reader.
    pub closed spec fn bits(&self) -> Seq<bool> {
        bits_of_bytes(self.data@)
    }

    /// How many bits have been consumed so far.
    pub closed spec fn cursor(&self) -> nat {
        self.pos as nat
    }

    pub open spec fn wf(&self) -> bool {
        self.cursor() <= self.bits().len() && self.bits().len() < 0x4000_0000
    }

    pub fn new(data: Vec<u8>) -> (r: BitReader)
        requires
            data@.len() < 0x0800_0000,
        ensures
            r.wf(),
            r.bits() == bits_of_bytes(data@),
            r.cursor() == 0,
    {
        BitReader { data, pos: 0 }
    }

    /// How many whole bytes the cursor has consumed or entered.
    pub fn total_read(&self) -> (r: usize)
        requires
            self.wf(),
        ensures
            r == (self.cursor() + 7) / 8,
    {
        (self.pos + 7) / 8
    }

    /// The single bit at position `i`.
    fn bit_at(&self, i: usize) -> (r: bool)
        requires
            self.wf(),
            i < self.bits().len(),
        ensures
            r == self.bits()[i as int],
    {
        let byte = self.data[i / 8];
        let sh: u8 = (7 - (i % 8)) as u8;
        ((byte >> sh) & 1) == 1
    }

    /// Reads `count` bits as one value, most significant first.
    pub fn read_bits(&mut self, count: usize) -> (r: Result<u32, CodecError>)
        requires
            old(self).wf(),
            count <= 30,
        ensures
            final(self).wf(),
            final(self).bits() == old(self).bits(),
            count == 0 ==> r == Ok::<u32, CodecError>(0u32) && final(self).cursor() == old(
                self,
            ).cursor(),
            count > 0 && old(self).cursor() + count <= old(self).bits().len() ==> {
                &&& r is Ok
                &&& r->Ok_0 == bits_val(
                    old(self).bits().subrange(
                        old(self).cursor() as int,
                        old(self).cursor() + count,
                    ),
                )
                &&& final(self).cursor() == old(self).cursor() + count
            },
            count > 0 && old(self).cursor() + count > old(self).bits().len() ==> r == Err::<
                u32,
                CodecError,
            >(CodecError::UnexpectedEndOfInput) && final(self).cursor() == old(self).cursor(),
    {
        if count == 0 {
            return Ok(0);
        }
        let total_bits = self.data.len() * 8;
        if self.pos + count > total_bits {
            return Err(CodecError::UnexpectedEndOfInput);
        }
        let ghost start = self.pos as int;
        let mut value: u32 = 0;
        let mut i: usize = 0;
        while i < count
            invariant
                self.wf(),
                count <= 30,
                i <= count,
                start == old(self).cursor(),
                start + count <= self.bits().len(),
                self.cursor() == start + i,
                self.bits() == old(self).bits(),
                self.data@ == old(self).data@,
                value == bits_val(self.bits().subrange(start, start + i)),
                value < pow2n(i as nat),
            decreases count - i,
        {
            let b = self.bit_at(self.pos);
            proof {
                assert(b == self.bits()[start + i]);
                assert(self.bits().subrange(start, start + i).len() == i);
                crate::bits::lemma_bits_val_push(self.bits().subrange(start, start + i), b);
                assert(self.bits().subrange(start, start + i + 1) =~= self.bits().subrange(
                    start,
                    start + i,
                ).push(b));
                crate::bits::lemma_pow2n_le(i as nat + 1, 31);
                crate::bits::lemma_pow2n_31();
            }
            value = value * 2 + (if b {
                1
            } else {
                0
            });
            self.pos = self.pos + 1;
            i = i + 1;
        }
        Ok(value)
    }

    /// Consumes and counts the run of 0-bits at the cursor, together with the
    /// terminating 1-bit.  Fails if the run reaches the end of the buffer.
    pub fn count_continuous_0s(&mut self) -> (r: Result<u32, CodecError>)
        requires
            old(self).wf(),
        ensures
            final(self).wf(),
            final(self).bits() == old(self).bits(),
            ({
                let run = zeros_run(old(self).bits(), old(self).cursor());
                if old(self).cursor() + run < old(self).bits().len() {
                    &&& r is Ok
                    &&& r->Ok_0 == run
                    &&& final(self).cursor() == old(self).cursor() + run + 1
                } else {
                    &&& r == Err::<u32, CodecError>(CodecError::UnexpectedEndOfInput)
                    &&& final(self).cursor() == old(self).cursor()
                }
            }),
    {
        let total_bits = self.data.len() * 8;
        let start = self.pos;
        let mut p = self.pos;
        while p < total_bits && !self.bit_at(p)
            invariant
                self.wf(),
                start <= p <= total_bits,
                total_bits == self.bits().len(),
                self.bits() == old(self).bits(),
                self.data@ == old(self).data@,
                self.cursor() == start,
                zeros_run(self.bits(), start as nat) == (p - start) + zeros_run(
                    self.bits(),
                    p as nat,
                ),
            decreases total_bits - p,
        {
            p = p + 1;
        }
        if p == total_bits {
            return Err(CodecError::UnexpectedEndOfInput);
        }
        self.pos = p + 1;
        Ok((p - start) as u32)
    }

    /// Consumes and counts the run of 1-bits at the cursor, together with the
    /// terminating 0-bit.  Fails if the run reaches the end of the buffer.
    pub fn count_continuous_1s(&mut self) -> (r: Result<u32, CodecError>)
        requires
            old(self).wf(),
        ensures
            final(self).wf(),
            final(self).bits() == old(self).bits(),
            ({
                let run = ones_run(old(self).bits(), old(self).cursor());
                if old(self).cursor() + run < old(self).bits().len() {
                    &&& r is Ok
                    &&& r->Ok_0 == run
                    &&& final(self).cursor() == old(self).cursor() + run + 1
                } else {
                    &&& r == Err::<u32, CodecError>(CodecError::UnexpectedEndOfInput)
                    &&& final(self).cursor() == old(self).cursor()
                }
            }),
    {
        let total_bits = self.data.len() * 8;
        let start = self.pos;
        let mut p = self.pos;
        while p < total_bits && self.bit_at(p)
            invariant
                self.wf(),
                start <= p <= total_bits,
                total_bits == self.bits().len(),
                self.bits() == old(self).bits(),
                self.data@ == old(self).data@,
                self.cursor() == start,
                ones_run(self.bits(), start as nat) == (p - start) + ones_run(
                    self.bits(),
                    p as nat,
                ),
            decreases total_bits - p,
        {
            p = p + 1;
        }
        if p == total_bits {
            return Err(CodecError::UnexpectedEndOfInput);
        }
        self.pos = p + 1;
        Ok((p - start) as u32)
    }
}

} // verus!

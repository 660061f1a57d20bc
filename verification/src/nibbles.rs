//! The 4-bit stream packed into program bytes: two opcodes per byte, the
//! high half of each byte first.

use vstd::prelude::*;
use vstd::slice::slice_to_vec;

verus! {

/// The `i`-th opcode of a packed stream. Even positions take the high half
/// of byte `i / 2`, odd positions the low half.
pub open spec fn nibble_at(bytes: Seq<u8>, i: int) -> u8
    recommends
        0 <= i,
        i / 2 < bytes.len(),
{
    if i % 2 == 0 {
        bytes[i / 2] / 16
    } else {
        bytes[i / 2] % 16
    }
}

/// Bytes needed to hold `count` packed opcodes: half of `count`, rounded up.
pub open spec fn packed_len(count: nat) -> nat {
    (count + 1) / 2
}

/// Where a [`HalfBytesChunker`] stands: the bytes it reads, how many opcodes
/// they hold, and how many of those it has handed out.
pub struct NibbleCursor {
    pub source: Seq<u8>,
    pub count: nat,
    pub position: nat,
}

impl NibbleCursor {
    /// One pull: the opcode at `position`, if any is left, and the cursor
    /// after it.
    pub open spec fn next(self) -> (Option<u8>, NibbleCursor) {
        if self.position < self.count {
            (
                Some(nibble_at(self.source, self.position as int)),
                NibbleCursor { position: self.position + 1, ..self },
            )
        } else {
            (None, self)
        }
    }
}

/// Splits bytes into opcodes, one per call of [`HalfBytesChunker::next`],
/// never reading past the declared opcode count.
pub struct HalfBytesChunker {
    len: usize,
    source: Vec<u8>,
    i: usize,
    buffer: Option<u8>,
}

impl View for HalfBytesChunker {
    type V = NibbleCursor;

    closed spec fn view(&self) -> NibbleCursor {
        NibbleCursor { source: self.source@, count: self.len as nat, position: self.i as nat }
    }
}

impl HalfBytesChunker {
    /// The source holds every declared opcode, the position is within the
    /// declared count, and the low half of a byte is held back exactly
    /// while the position is odd.
    pub closed spec fn wf(&self) -> bool {
        &&& self.i <= self.len
        &&& packed_len(self.len as nat) <= self.source.len()
        &&& self.buffer == if self.i % 2 == 1 {
            Some((self.source@[self.i as int / 2] % 16) as u8)
        } else {
            None::<u8>
        }
    }

    /// Hands out the next opcode, or `None` once `count` opcodes are out.
    pub fn next(&mut self) -> (nibble: Option<u8>)
        requires
            old(self).wf(),
        ensures
            final(self).wf(),
            (nibble, final(self)@) == old(self)@.next(),
    {
        if self.i >= self.len {
            return None;
        }
        if let Some(value) = self.buffer {
            self.i += 1;
            self.buffer = None;
            return Some(value);
        }
        let byte: u8 = self.source[self.i / 2];
        let low: u8 = byte & 0x0F;
        let current: u8 = (byte >> 4) & 0x0F;
        assert(low == byte % 16 && current == byte / 16) by (bit_vector)
            requires
                low == byte & 0x0F,
                current == (byte >> 4) & 0x0F,
        ;
        self.buffer = Some(low);
        self.i += 1;
        Some(current)
    }
}

/// Starts an opcode stream over `source` that will hand out `len` opcodes.
pub fn half_bytes(source: &[u8], len: usize) -> (chunker: HalfBytesChunker)
    requires
        packed_len(len as nat) <= source@.len(),
    ensures
        chunker.wf(),
        chunker@ == (NibbleCursor { source: source@, count: len as nat, position: 0 }),
{
    HalfBytesChunker { len, source: slice_to_vec(source), i: 0, buffer: None }
}

} // verus!

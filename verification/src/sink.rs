//! The hardware destination, modeled as a fixed-length byte buffer that is
//! only ever overwritten in bulk from the grid. The raw memory-mapped
//! destination itself lives outside this library; a front end copies the
//! sink's bytes there verbatim.

use vstd::prelude::*;
use vstd::pervasive::VecAdditionalExecFns;

verus! {

/// A fixed-length byte destination. Its view is the byte sequence it holds.
pub struct HardwareSink {
    bytes: Vec<u8>,
}

impl View for HardwareSink {
    type V = Seq<u8>;

    closed spec fn view(&self) -> Seq<u8> {
        self.bytes@
    }
}

impl HardwareSink {
    /// A destination of the given length, zero-filled.
    pub fn new(len: usize) -> (r: HardwareSink)
        ensures
            r@ == Seq::new(len as nat, |i: int| 0u8),
    {
        let bytes = vec![0u8; len];
        let r = HardwareSink { bytes };
        proof {
            assert(r@ =~= Seq::new(len as nat, |i: int| 0u8));
        }
        r
    }

    /// Length of the destination.
    pub fn len(&self) -> (r: usize)
        ensures
            r == self@.len(),
    {
        self.bytes.len()
    }

    /// The byte at an index, for reading the destination back.
    pub fn byte_at(&self, i: usize) -> (r: u8)
        requires
            i < self@.len(),
        ensures
            r == self@[i as int],
    {
        self.bytes[i]
    }

    /// Overwrite one byte in place; the length never changes.
    pub(crate) fn set_byte(&mut self, i: usize, b: u8)
        requires
            i < old(self)@.len(),
        ensures
            final(self)@ == old(self)@.update(i as int, b),
    {
        self.bytes.set(i, b);
    }
}

} // verus!

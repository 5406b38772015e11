use vstd::prelude::*;

verus! {

/// Byte-addressable storage device with plain overwrite semantics.
///
/// Models the device's addressable byte region as a sequence of bytes.
/// A fresh device is fully erased, which reads as all bits one.  The
/// device neither fails nor retries: callers check bounds before a
/// write, mirroring the fatal-on-error discipline of the slot store.
pub struct Storage {
    data: Vec<u8>,
}

pub const ERASED_BYTE: u8 = 0xff;

impl View for Storage {
    type V = Seq<u8>;

    closed spec fn view(&self) -> Seq<u8> {
        self.data@
    }
}

impl Storage {
    /// A fully erased device of `size` bytes: every byte reads 0xff.
    pub fn new(size: usize) -> (r: Storage)
        ensures
            r@.len() == size,
            forall|i: int| 0 <= i < size ==> r@[i] == ERASED_BYTE,
    {
        let mut data: Vec<u8> = Vec::new();
        let mut n: usize = 0;
        while n < size
            invariant
                n <= size,
                data@.len() == n,
                forall|i: int| 0 <= i < n ==> data@[i] == ERASED_BYTE,
            decreases size - n,
        {
            data.push(ERASED_BYTE);
            n = n + 1;
        }
        Storage { data }
    }

    pub fn len(&self) -> (r: usize)
        ensures
            r == self@.len(),
    {
        self.data.len()
    }

    /// Reads `len` bytes starting at `offset`.
    pub fn read(&self, offset: usize, len: usize) -> (r: Vec<u8>)
        requires
            offset + len <= self@.len(),
        ensures
            r@ == self@.subrange(offset as int, offset + len),
    {
        let total = self.data.len();
        let mut out: Vec<u8> = Vec::new();
        let mut n: usize = 0;
        while n < len
            invariant
                n <= len,
                total == self@.len(),
                offset + len <= total,
                out@ == self@.subrange(offset as int, offset + n),
            decreases len - n,
        {
            out.push(self.data[offset + n]);
            n = n + 1;
            proof {
                assert(out@ =~= self@.subrange(offset as int, offset + n));
            }
        }
        out
    }

    /// Overwrites the bytes at `offset` with `data`, leaving every other
    /// byte of the device unchanged.
    pub fn write(&mut self, offset: usize, data: &[u8])
        requires
            offset + data@.len() <= old(self)@.len(),
        ensures
            final(self)@.len() == old(self)@.len(),
            forall|i: int|
                0 <= i < data@.len() ==> final(self)@[offset + i] == data@[i],
            forall|i: int|
                0 <= i < old(self)@.len() && !(offset <= i < offset + data@.len())
                    ==> final(self)@[i] == old(self)@[i],
    {
        let total = self.data.len();
        let mut n: usize = 0;
        while n < data.len()
            invariant
                n <= data@.len(),
                total == self@.len(),
                offset + data@.len() <= total,
                self@.len() == old(self)@.len(),
                forall|i: int| 0 <= i < n ==> self@[offset + i] == data@[i],
                forall|i: int|
                    0 <= i < old(self)@.len() && !(offset <= i < offset + n)
                        ==> self@[i] == old(self)@[i],
            decreases data@.len() - n,
        {
            self.data[offset + n] = data[n];
            n = n + 1;
        }
    }
}

} // verus!

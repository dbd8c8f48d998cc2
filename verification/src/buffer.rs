//! A writer that fills an output buffer of fixed size from its start.

use vstd::prelude::*;

verus! {

/// `base` with `part` written over it from position `at`.
pub open spec fn overwrite(base: Seq<u8>, at: int, part: Seq<u8>) -> Seq<u8> {
    base.subrange(0, at) + part + base.subrange(at + part.len(), base.len() as int)
}

/// An output buffer together with how much of it has been written.
pub struct Buffer {
    bytes: Vec<u8>,
    len: usize,
}

impl Buffer {
    /// The whole buffer, written part and the rest.
    pub closed spec fn contents(&self) -> Seq<u8> {
        self.bytes@
    }

    /// How many bytes have been written.
    pub closed spec fn written(&self) -> nat {
        self.len as nat
    }

    #[verifier::type_invariant]
    closed spec fn inside(&self) -> bool {
        self.len <= self.bytes@.len()
    }

    /// A writer that starts at the beginning of `bytes`.
    pub fn new(bytes: Vec<u8>) -> (b: Self)
        ensures
            b.contents() == bytes@,
            b.written() == 0,
    {
        Buffer { bytes, len: 0 }
    }

    /// How many bytes have been written.
    pub fn len(&self) -> (n: usize)
        ensures
            n == self.written(),
    {
        self.len
    }

    /// Writes `value` after what was written before. Where it does not fit,
    /// nothing is written and `Err` comes back.
    pub fn write_str(&mut self, value: &[u8]) -> (r: Result<(), ()>)
        ensures
            final(self).contents().len() == old(self).contents().len(),
            final(self).written() <= final(self).contents().len(),
            old(self).written() + value@.len() <= old(self).contents().len() ==> {
                &&& r is Ok
                &&& final(self).written() == old(self).written() + value@.len()
                &&& final(self).contents() == overwrite(
                    old(self).contents(),
                    old(self).written() as int,
                    value@,
                )
            },
            old(self).written() + value@.len() > old(self).contents().len() ==> {
                &&& r is Err
                &&& final(self).written() == old(self).written()
                &&& final(self).contents() == old(self).contents()
            },
    {
        proof {
            use_type_invariant(&*self);
        }
        if value.len() > self.bytes.len() - self.len {
            return Err(());
        }
        let start = self.len;
        self.len = 0;
        let mut bytes = Vec::new();
        std::mem::swap(&mut bytes, &mut self.bytes);
        let ghost before = bytes@;
        assert(before.len() <= usize::MAX);
        let mut i: usize = 0;
        while i < value.len()
            invariant
                start + value@.len() <= before.len(),
                bytes@.len() == before.len(),
                before.len() <= usize::MAX,
                i <= value@.len(),
                value@.len() == value.len(),
                forall|j: int| 0 <= j < start ==> bytes@[j] == before[j],
                forall|j: int| 0 <= j < i ==> bytes@[start + j] == value@[j],
                forall|j: int| start + i <= j < before.len() ==> bytes@[j] == before[j],
            decreases value@.len() - i,
        {
            bytes.set(start + i, value[i]);
            i = i + 1;
        }
        assert(bytes@ =~= overwrite(before, start as int, value@));
        self.bytes = bytes;
        self.len = start + value.len();
        Ok(())
    }

    /// Gives the buffer back.
    pub fn into_bytes(self) -> (bytes: Vec<u8>)
        ensures
            bytes@ == self.contents(),
    {
        self.bytes
    }
}

} // verus!

//! The byte source that decoding reads from.
use vstd::prelude::*;

verus! {

/// The bytes that are left to decode, read front to back.
pub struct ByteIter {
    bytes: Vec<u8>,
    pos: usize,
}

impl View for ByteIter {
    type V = Seq<u8>;

    /// The bytes not yet read.
    closed spec fn view(&self) -> Seq<u8> {
        self.bytes@.skip(self.pos as int)
    }
}

impl ByteIter {
    #[verifier::type_invariant]
    spec fn inv(self) -> bool {
        self.pos <= self.bytes.len()
    }

    /// A source that yields `bytes` in order.
    pub fn new(bytes: Vec<u8>) -> (res: Self)
        ensures
            res@ == bytes@,
    {
        let res = ByteIter { bytes, pos: 0 };
        assert(res@ =~= res.bytes@);
        res
    }

    /// The next byte, or `None` once every byte has been read.
    pub fn next(&mut self) -> (res: Option<u8>)
        ensures
            old(self)@.len() > 0 ==> res == Some(old(self)@[0]) && final(self)@ == old(self)@.drop_first(),
            old(self)@.len() == 0 ==> res is None && final(self)@ == old(self)@,
    {
        proof {
            use_type_invariant(&*self);
        }
        if self.pos < self.bytes.len() {
            let b = self.bytes[self.pos];
            self.pos = self.pos + 1;
            assert(self@ =~= old(self)@.drop_first());
            Some(b)
        } else {
            None
        }
    }

    /// How many bytes are left.
    pub fn len(&self) -> (res: usize)
        ensures
            res == self@.len(),
    {
        proof {
            use_type_invariant(self);
        }
        self.bytes.len() - self.pos
    }
}

} // verus!

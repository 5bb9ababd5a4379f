use crate::error::DecodeError;
use vstd::prelude::*;
use vstd::slice::slice_subrange;

verus! {

/// A cursor over borrowed octets that hands them out front to back.
pub struct ByteStream<'a> {
    bytes: &'a [u8],
    pos: usize,
}

impl<'a> ByteStream<'a> {
    #[verifier::type_invariant]
    spec fn in_bounds(self) -> bool {
        self.pos <= self.bytes@.len()
    }

    /// The octets that have not been read yet, in order.
    pub closed spec fn remaining(self) -> Seq<u8> {
        self.bytes@.skip(self.pos as int)
    }

    /// A stream that will hand out all of `bytes`.
    pub fn new(bytes: &'a [u8]) -> (stream: Self)
        ensures
            stream.remaining() == bytes@,
    {
        assert(bytes@.skip(0) =~= bytes@);
        ByteStream { bytes, pos: 0 }
    }

    /// How many octets are left to read.
    pub fn remaining_len(&self) -> (n: usize)
        ensures
            n == self.remaining().len(),
    {
        proof {
            use_type_invariant(self);
        }
        self.bytes.len() - self.pos
    }

    /// The octets left to read, without reading them.
    pub fn rest(&self) -> (out: &'a [u8])
        ensures
            out@ == self.remaining(),
    {
        proof {
            use_type_invariant(self);
        }
        let out = slice_subrange(self.bytes, self.pos, self.bytes.len());
        assert(out@ =~= self.remaining());
        out
    }

    /// Reads exactly `count` octets. Where fewer are left, fails with
    /// `UnexpectedEndOfInput` and reads nothing.
    pub fn read_exact(&mut self, count: usize) -> (result: Result<&'a [u8], DecodeError>)
        ensures
            match result {
                Ok(out) => {
                    &&& count <= old(self).remaining().len()
                    &&& out@ == old(self).remaining().take(count as int)
                    &&& final(self).remaining() == old(self).remaining().skip(count as int)
                },
                Err(e) => {
                    &&& e == DecodeError::UnexpectedEndOfInput
                    &&& count > old(self).remaining().len()
                    &&& final(self).remaining() == old(self).remaining()
                },
            },
    {
        proof {
            use_type_invariant(&*self);
        }
        let available: usize = self.bytes.len() - self.pos;
        if count > available {
            return Err(DecodeError::UnexpectedEndOfInput);
        }
        let start: usize = self.pos;
        let out = slice_subrange(self.bytes, start, start + count);
        self.pos = start + count;
        assert(out@ =~= old(self).remaining().take(count as int));
        assert(self.remaining() =~= old(self).remaining().skip(count as int));
        Ok(out)
    }

    /// Reads one octet. At the end of the input, fails with
    /// `UnexpectedEndOfInput`.
    pub fn read_octet(&mut self) -> (result: Result<u8, DecodeError>)
        ensures
            match result {
                Ok(octet) => {
                    &&& old(self).remaining().len() > 0
                    &&& octet == old(self).remaining()[0]
                    &&& final(self).remaining() == old(self).remaining().skip(1)
                },
                Err(e) => {
                    &&& e == DecodeError::UnexpectedEndOfInput
                    &&& old(self).remaining().len() == 0
                    &&& final(self).remaining() == old(self).remaining()
                },
            },
    {
        match self.read_exact(1) {
            Ok(out) => Ok(out[0]),
            Err(e) => Err(e),
        }
    }
}

} // verus!

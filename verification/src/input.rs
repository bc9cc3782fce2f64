use vstd::prelude::*;

verus! {

/// A byte input source for the interpreter: a buffer of bytes consumed one
/// at a time, from the front. Its view is the bytes not yet consumed.
pub struct Input {
    data: Vec<u8>,
    pos: usize,
}

impl View for Input {
    type V = Seq<u8>;

    closed spec fn view(&self) -> Seq<u8> {
        self.data@.skip(self.pos as int)
    }
}

impl Input {
    /// The consumed prefix never outruns the buffer.
    pub closed spec fn wf(&self) -> bool {
        self.pos <= self.data@.len()
    }

    /// An input source over the given bytes, none of them consumed yet.
    pub fn new(data: Vec<u8>) -> (r: Input)
        ensures
            r.wf(),
            r@ == data@,
    {
        let r = Input { data, pos: 0 };
        proof {
            assert(r@ =~= r.data@);
        }
        r
    }

    /// The next byte, consumed, or `None` when the source is exhausted.
    pub fn read_byte(&mut self) -> (r: Option<u8>)
        requires
            old(self).wf(),
        ensures
            final(self).wf(),
            old(self)@.len() == 0 ==> r is None && final(self)@ == old(self)@,
            old(self)@.len() > 0 ==> r == Some(old(self)@[0]) && final(self)@ == old(self)@.skip(
                1,
            ),
    {
        if self.pos < self.data.len() {
            let b = self.data[self.pos];
            self.pos = self.pos + 1;
            proof {
                assert(self@ =~= old(self)@.skip(1));
            }
            Some(b)
        } else {
            None
        }
    }
}

} // verus!

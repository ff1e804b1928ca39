use vstd::prelude::*;

use crate::frame::{parse_spec, Error, Frame, ParsedV};

verus! {

/// The bytes read from a peer that no frame has consumed yet.
pub struct FrameBuffer {
    buffer: Vec<u8>,
}

impl View for FrameBuffer {
    type V = Seq<u8>;

    closed spec fn view(&self) -> Seq<u8> {
        self.buffer@
    }
}

impl FrameBuffer {
    /// An empty buffer.
    pub fn new() -> (r: FrameBuffer)
        ensures
            r@ == Seq::<u8>::empty(),
    {
        FrameBuffer { buffer: Vec::new() }
    }

    /// Appends bytes just read from the peer.
    pub fn extend(&mut self, bytes: &[u8])
        ensures
            final(self)@ == old(self)@ + bytes@,
    {
        let mut k: usize = 0;
        while k < bytes.len()
            invariant
                k <= bytes@.len(),
                self@ == old(self)@ + bytes@.subrange(0, k as int),
            decreases bytes.len() - k,
        {
            self.buffer.push(bytes[k]);
            assert(self@ =~= old(self)@ + bytes@.subrange(0, k + 1));
            k = k + 1;
        }
        assert(bytes@.subrange(0, k as int) =~= bytes@);
    }

    pub fn is_empty(&self) -> (r: bool)
        ensures
            r == (self@.len() == 0),
    {
        self.buffer.len() == 0
    }

    /// Takes one frame off the front of the buffer if a complete one is
    /// there. An incomplete frame leaves the buffer as it was.
    pub fn parse_frame(&mut self, expect_file: bool) -> (r: Result<Option<Frame>, Error>)
        ensures
            match parse_spec(old(self)@, 0, expect_file) {
                ParsedV::Done(f, q) => r matches Ok(Some(g)) && g@ == f && final(self)@ == old(
                    self,
                )@.subrange(q, old(self)@.len() as int),
                ParsedV::Incomplete => r matches Ok(None) && final(self)@ == old(self)@,
                ParsedV::Invalid => r matches Err(Error::Other(_)) && final(self)@ == old(self)@,
            },
    {
        let mut pos: usize = 0;
        match Frame::parse(self.buffer.as_slice(), &mut pos, expect_file) {
            Ok(frame) => {
                let rest = self.buffer.split_off(pos);
                self.buffer = rest;
                Ok(Some(frame))
            },
            Err(Error::Incomplete) => Ok(None),
            Err(e) => Err(e),
        }
    }

    /// What the peer closing its side means: a clean end when nothing is
    /// buffered, otherwise a frame cut short.
    pub fn closed(&self) -> (r: Result<Option<Frame>, Error>)
        ensures
            self@.len() == 0 ==> r matches Ok(None),
            self@.len() != 0 ==> r matches Err(Error::Other(_)),
    {
        if self.buffer.len() == 0 {
            Ok(None)
        } else {
            Err(Error::Other("Connection reset by peer".to_string()))
        }
    }
}

} // verus!

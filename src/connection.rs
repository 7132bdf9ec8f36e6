//! The bytes a connection has received but not yet run, and the requests
//! drained from their head one frame at a time.
use vstd::prelude::*;
use crate::codec::{copy_range, decode, push_bytes, try_parse_one_command, Scan};
use crate::command::kind_of_args;
use crate::frame_laws::lemma_decode_prefix;
use crate::resp2::Resp2;

verus! {

pub struct FrameBuffer {
    buf: Vec<u8>,
}

impl View for FrameBuffer {
    type V = Seq<u8>;

    closed spec fn view(&self) -> Seq<u8> {
        self.buf@
    }
}

impl FrameBuffer {
    pub fn new() -> (r: FrameBuffer)
        ensures
            r@ == Seq::<u8>::empty(),
    {
        FrameBuffer { buf: Vec::new() }
    }

    /// Appends bytes read from the connection.
    pub fn push(&mut self, bytes: &[u8])
        ensures
            final(self)@ == old(self)@ + bytes@,
    {
        push_bytes(&mut self.buf, bytes);
    }

    pub fn len(&self) -> (r: usize)
        ensures
            r == self@.len(),
    {
        self.buf.len()
    }

    /// Takes the complete frame at the head of the buffer, if there is one,
    /// and leaves the bytes after it. An incomplete frame stays; bytes that
    /// can never form a frame are an error and stay too.
    pub fn next_frame(&mut self) -> (r: Result<Option<Vec<u8>>, String>)
        ensures
            match decode(old(self)@) {
                Scan::Done(_, k) => r matches Ok(Some(f)) && f@ == old(self)@.subrange(0, k)
                    && final(self)@ == old(self)@.subrange(k, old(self)@.len() as int),
                Scan::More => r matches Ok(None) && final(self)@ == old(self)@,
                Scan::Bad => r is Err && final(self)@ == old(self)@,
            },
    {
        match try_parse_one_command(self.buf.as_slice()) {
            Ok(Some((frame, used))) => {
                let rest = copy_range(self.buf.as_slice(), used, self.buf.len());
                self.buf = rest;
                Ok(Some(frame))
            },
            Ok(None) => Ok(None),
            Err(e) => Err(e),
        }
    }

    /// The request at the head of the buffer, drained as `next_frame` drains
    /// it, with its arguments, kind and raw bytes.
    pub fn next_request(&mut self) -> (r: Result<Option<Resp2>, String>)
        ensures
            match decode(old(self)@) {
                Scan::Done(args, k) => r matches Ok(Some(req)) && req.spec_data() == args
                    && req.spec_kind() == kind_of_args(args) && req.spec_literal() == old(
                    self,
                )@.subrange(0, k) && final(self)@ == old(self)@.subrange(k, old(self)@.len() as int),
                Scan::More => r matches Ok(None) && final(self)@ == old(self)@,
                Scan::Bad => r is Err && final(self)@ == old(self)@,
            },
    {
        let ghost whole = self.buf@;
        match self.next_frame() {
            Ok(Some(frame)) => {
                proof {
                    lemma_decode_bounds_of(whole);
                    assert(frame@.is_prefix_of(whole));
                    lemma_decode_prefix(frame@, whole);
                }
                let mut req = Resp2::new();
                match req.read_frame(frame.as_slice()) {
                    Ok(()) => {
                        proof {
                            assert(frame@.subrange(0, frame@.len() as int) =~= frame@);
                        }
                        Ok(Some(req))
                    },
                    Err(e) => Err(e),
                }
            },
            Ok(None) => Ok(None),
            Err(e) => Err(e),
        }
    }
}

proof fn lemma_decode_bounds_of(buf: Seq<u8>)
    ensures
        decode(buf) matches Scan::Done(_, k) ==> 0 < k <= buf.len(),
{
    crate::frame_laws::lemma_frame_end(buf);
}

} // verus!

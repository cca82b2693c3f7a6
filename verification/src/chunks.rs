//! A carrier as a run of windows of eight bytes.

use vstd::prelude::*;
use crate::bits::{decode_byte, decode_window};

verus! {

/// The number of windows in a carrier of `len` bytes. A tail of fewer than
/// eight bytes is no window.
pub open spec fn window_count(len: nat) -> nat {
    len / 8
}

/// Window `i` of `carrier`: the eight bytes from offset `8 * i`.
pub open spec fn window_at(carrier: Seq<u8>, i: int) -> Seq<u8> {
    carrier.subrange(8 * i, 8 * i + 8)
}

/// The bytes that the windows of `carrier` carry, one per window, in order.
pub open spec fn hidden_stream(carrier: Seq<u8>) -> Seq<u8> {
    Seq::new(window_count(carrier.len()), |i: int| decode_window(window_at(carrier, i)))
}

/// The windows of a carrier, handed out one at a time from the first on.
///
/// A stream owns nothing but its place in the carrier: a new stream over the
/// same bytes starts over and yields the same windows.
pub struct ByteChunks<'a> {
    bytes: &'a [u8],
    taken: usize,
}

impl<'a> ByteChunks<'a> {
    /// The carrier that the stream walks.
    pub closed spec fn carrier(&self) -> Seq<u8> {
        self.bytes@
    }

    /// The number of windows handed out so far.
    pub closed spec fn position(&self) -> nat {
        if self.taken <= window_count(self.bytes@.len()) {
            self.taken as nat
        } else {
            window_count(self.bytes@.len())
        }
    }

    /// The number of windows still to come.
    pub open spec fn remaining(&self) -> nat {
        (window_count(self.carrier().len()) - self.position()) as nat
    }

    /// A stream never stands beyond the last window of its carrier.
    pub proof fn lemma_position_in_carrier(&self)
        ensures
            self.position() <= window_count(self.carrier().len()),
    {
    }

    /// The next window, or `None` once every whole window has been handed out.
    pub fn next(&mut self) -> (window: Option<[u8; 8]>)
        ensures
            final(self).carrier() == old(self).carrier(),
            old(self).remaining() == 0 ==> window is None && final(self).position() == old(
                self,
            ).position(),
            old(self).remaining() > 0 ==> window is Some && window->0@ == window_at(
                old(self).carrier(),
                old(self).position() as int,
            ) && final(self).position() == old(self).position() + 1,
    {
        let count: usize = self.bytes.len() / 8;
        if self.taken >= count {
            return None;
        }
        let start: usize = self.taken * 8;
        let window: [u8; 8] = [
            self.bytes[start],
            self.bytes[start + 1],
            self.bytes[start + 2],
            self.bytes[start + 3],
            self.bytes[start + 4],
            self.bytes[start + 5],
            self.bytes[start + 6],
            self.bytes[start + 7],
        ];
        assert(window@ =~= window_at(self.bytes@, self.taken as int));
        self.taken = self.taken + 1;
        Some(window)
    }
}

/// A stream over the windows of `image_bytes`, placed before the first one.
pub fn create_byte_chunks<'a>(image_bytes: &'a [u8]) -> (chunks: ByteChunks<'a>)
    ensures
        chunks.carrier() == image_bytes@,
        chunks.position() == 0,
{
    ByteChunks { bytes: image_bytes, taken: 0 }
}

/// Takes up to `count` windows from `chunks` and returns the bytes they
/// carry. The result is shorter than `count` only where the carrier ends.
pub fn decode_chunks(chunks: &mut ByteChunks, count: usize) -> (decoded: Vec<u8>)
    ensures
        final(chunks).carrier() == old(chunks).carrier(),
        decoded@.len() == if count <= old(chunks).remaining() {
            count as nat
        } else {
            old(chunks).remaining()
        },
        final(chunks).position() == old(chunks).position() + decoded@.len(),
        decoded@ == hidden_stream(old(chunks).carrier()).subrange(
            old(chunks).position() as int,
            (old(chunks).position() + decoded@.len()) as int,
        ),
{
    let mut decoded: Vec<u8> = Vec::new();
    let ghost carrier = chunks.carrier();
    let ghost start = chunks.position();
    let ghost stream = hidden_stream(carrier);
    proof {
        chunks.lemma_position_in_carrier();
    }
    let mut taken: usize = 0;
    while taken < count
        invariant
            taken <= count,
            chunks.carrier() == carrier,
            start == old(chunks).position(),
            carrier == old(chunks).carrier(),
            stream == hidden_stream(carrier),
            taken <= old(chunks).remaining(),
            decoded@.len() == taken,
            chunks.position() == start + taken,
            decoded@ == stream.subrange(start as int, (start + taken) as int),
        ensures
            taken == count || chunks.remaining() == 0,
        decreases count - taken,
    {
        match chunks.next() {
            Some(window) => {
                let byte: u8 = decode_byte(&window);
                decoded.push(byte);
                taken = taken + 1;
                assert(decoded@ =~= stream.subrange(start as int, (start + taken) as int));
            },
            None => {
                break ;
            },
        }
    }
    decoded
}

} // verus!

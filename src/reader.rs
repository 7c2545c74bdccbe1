//! Bytes that a session's background reader has taken from its terminal, and the policy
//! by which they move into the session's output buffer.
use vstd::prelude::*;
use vstd::slice::slice_subrange;
use crate::circular_buffer::{keep_last, lemma_keep_last_append, accepted, CircularBuffer};

verus! {

/// Bytes read from the terminal and not yet handed to the output buffer, oldest first.
pub struct PendingOutput {
    bytes: Vec<u8>,
}

impl View for PendingOutput {
    type V = Seq<u8>;

    closed spec fn view(&self) -> Seq<u8> {
        self.bytes@
    }
}

/// How many of `pending` bytes fit in the free room of a buffer of capacity `n` that holds
/// `buffered` bytes.
pub open spec fn room_for(buffered: nat, pending: nat, n: nat) -> nat {
    let room = if buffered <= n { (n - buffered) as nat } else { 0 };
    if pending <= room {
        pending
    } else {
        room
    }
}

impl PendingOutput {
    /// Nothing pending.
    pub fn new() -> (r: Self)
        ensures
            r@ == Seq::<u8>::empty(),
    {
        PendingOutput { bytes: Vec::new() }
    }

    /// Number of pending bytes.
    pub fn len(&self) -> (r: usize)
        ensures
            r == self@.len(),
    {
        self.bytes.len()
    }

    /// Adds one byte read from the terminal.
    pub fn push(&mut self, b: u8)
        ensures
            final(self)@ == old(self)@.push(b),
    {
        self.bytes.push(b);
    }

    /// Adds bytes to the stream, such as the text of a fault met on the way.
    pub fn push_bytes(&mut self, b: &[u8])
        ensures
            final(self)@ == old(self)@ + b@,
    {
        let mut i: usize = 0;
        while i < b.len()
            invariant
                i <= b@.len(),
                self@ == old(self)@ + b@.take(i as int),
            decreases b@.len() - i,
        {
            self.bytes.push(b[i]);
            assert(old(self)@ + b@.take(i + 1) =~= (old(self)@ + b@.take(i as int)).push(b@[i as int]));
            i = i + 1;
        }
        assert(b@.take(i as int) =~= b@);
    }

    /// Whether more than a whole buffer's worth is pending, so that the reader must wait for
    /// the buffer's lock rather than merely try it.
    pub fn must_block(&self, capacity: usize) -> (r: bool)
        ensures
            r == (self@.len() > capacity),
    {
        self.bytes.len() > capacity
    }

    /// Moves pending bytes into `out` and returns whether none is left pending.
    /// While nobody reads the buffer (`outputting` false) every pending byte goes in and
    /// the oldest bytes give way once `out` is full. While a client reads it, only as many
    /// of the oldest pending bytes as fit in the free room go in, so that nothing already
    /// in `out` is overwritten; the rest wait for a later call.
    pub fn flush_into<const N: usize>(&mut self, out: &mut CircularBuffer<N>, outputting: bool) -> (r: bool)
        requires
            old(out).wf(),
        ensures
            final(out).wf(),
            r == (final(self)@.len() == 0),
            !outputting ==> final(self)@ == Seq::<u8>::empty() && final(out)@ == keep_last(
                old(out)@ + old(self)@,
                N as nat,
            ),
            outputting ==> {
                let k = room_for(old(out)@.len(), old(self)@.len(), N as nat) as int;
                &&& final(out)@ == old(out)@ + old(self)@.take(k)
                &&& final(self)@ == old(self)@.skip(k)
            },
            outputting ==> final(out)@ + final(self)@ == old(out)@ + old(self)@,
    {
        let n = self.bytes.len();
        proof {
            out.lemma_bounded();
        }
        if outputting {
            let room = N - out.len();
            let k: usize = if n <= room { n } else { room };
            let part = slice_subrange(self.bytes.as_slice(), 0, k);
            out.write(part);
            proof {
                assert(accepted(part@, N as nat) =~= part@);
                assert(keep_last(old(out)@ + part@, N as nat) =~= old(out)@ + part@);
            }
            let rest = self.bytes.split_off(k);
            self.bytes = rest;
            assert(out@ =~= old(out)@ + old(self)@.take(k as int));
            assert(self@ =~= old(self)@.skip(k as int));
            assert(out@ + self@ =~= old(out)@ + old(self)@);
            return self.bytes.len() == 0;
        }
        if N == 0 {
            assert(keep_last(old(out)@ + old(self)@, 0) =~= Seq::<u8>::empty());
            assert(out@ =~= Seq::<u8>::empty());
        } else {
            let mut k: usize = 0;
            assert(old(out)@ + self@.take(0) =~= old(out)@);
            proof {
                assert(keep_last(old(out)@, N as nat) =~= old(out)@);
            }
            while k < n
                invariant
                    0 < N,
                    n == self@.len(),
                    self@ == old(self)@,
                    k <= n,
                    out.wf(),
                    out@ == keep_last(old(out)@ + self@.take(k as int), N as nat),
                decreases n - k,
            {
                let rest = slice_subrange(self.bytes.as_slice(), k, n);
                let w = out.write(rest);
                proof {
                    let a = old(out)@ + self@.take(k as int);
                    lemma_keep_last_append(a, accepted(rest@, N as nat), N as nat);
                    assert(accepted(rest@, N as nat) =~= self@.subrange(k as int, k + w));
                    assert(a + self@.subrange(k as int, k + w) =~= old(out)@ + self@.take(k + w));
                }
                k = k + w;
            }
            assert(self@.take(n as int) =~= self@);
        }
        self.bytes.clear();
        true
    }
}

} // verus!

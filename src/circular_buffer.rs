//! Fixed-capacity ring buffer of bytes that overwrites its oldest bytes on overflow.
use vstd::prelude::*;

verus! {

/// The last `n` elements of `s`, or all of `s` when it holds at most `n`.
pub open spec fn keep_last(s: Seq<u8>, n: nat) -> Seq<u8> {
    if s.len() <= n {
        s
    } else {
        s.subrange(s.len() - n, s.len() as int)
    }
}

/// Position in a backing array of capacity `n` of the `i`-th byte after `head`.
pub open spec fn slot(head: int, i: int, n: int) -> int {
    if head + i < n {
        head + i
    } else {
        head + i - n
    }
}

/// Why a read from the buffer gave no bytes.
#[derive(Debug, PartialEq, Eq, Structural, Clone, Copy)]
pub enum BufferError {
    /// Nothing has been written since the last drain; try again later.
    WouldBlock,
}

/// Ring buffer of `N` bytes. Its view is the pending bytes, oldest first.
pub struct CircularBuffer<const N: usize> {
    data: [u8; N],
    head: usize,
    len: usize,
}

impl<const N: usize> View for CircularBuffer<N> {
    type V = Seq<u8>;

    closed spec fn view(&self) -> Seq<u8> {
        Seq::new(self.len as nat, |i: int| self.data@[slot(self.head as int, i, N as int)])
    }
}

impl<const N: usize> CircularBuffer<N> {
    /// The cursor lies inside the backing array and at most `N` bytes are pending.
    pub closed spec fn wf(&self) -> bool {
        &&& self.data@.len() == N
        &&& self.len <= N
        &&& if N > 0 { self.head < N } else { self.head == 0 }
    }

    /// A well-formed buffer never holds more than its capacity.
    pub proof fn lemma_bounded(&self)
        requires
            self.wf(),
        ensures
            self@.len() <= N,
    {
    }

    /// An empty buffer.
    pub fn new() -> (r: Self)
        ensures
            r.wf(),
            r@ == Seq::<u8>::empty(),
    {
        let r = CircularBuffer { data: vstd::array::array_fill_for_copy_types(0u8), head: 0, len: 0 };
        assert(r@ =~= Seq::<u8>::empty());
        r
    }

    /// Number of bytes waiting to be read.
    pub fn len(&self) -> (r: usize)
        requires
            self.wf(),
        ensures
            r == self@.len(),
    {
        self.len
    }

    /// Whether no byte is waiting to be read.
    pub fn is_empty(&self) -> (r: bool)
        requires
            self.wf(),
        ensures
            r == (self@.len() == 0),
    {
        self.len == 0
    }

    /// The capacity `N` the buffer was made with.
    pub fn allocated_size(&self) -> (r: usize)
        ensures
            r == N,
    {
        N
    }

    /// Index in the backing array of the `i`-th pending byte.
    fn slot_of(&self, i: usize) -> (r: usize)
        requires
            self.wf(),
            0 < N,
            i <= N,
        ensures
            r == slot(self.head as int, i as int, N as int),
            r < N,
    {
        if i < N - self.head {
            self.head + i
        } else {
            i - (N - self.head)
        }
    }

    /// Appends one byte, dropping the oldest one when the buffer is full.
    fn push_byte(&mut self, b: u8)
        requires
            old(self).wf(),
        ensures
            final(self).wf(),
            final(self)@ == keep_last(old(self)@.push(b), N as nat),
    {
        if N == 0 {
            assert(keep_last(old(self)@.push(b), N as nat) =~= Seq::<u8>::empty());
            assert(self@ =~= Seq::<u8>::empty());
        } else if self.len < N {
            let t = self.slot_of(self.len);
            self.data[t] = b;
            self.len = self.len + 1;
            assert(self@ =~= old(self)@.push(b));
        } else {
            let h = self.head;
            self.data[h] = b;
            self.head = self.slot_of(1);
            assert(self@ =~= keep_last(old(self)@.push(b), N as nat));
        }
    }

    /// Removes and returns the oldest pending byte.
    fn pop_byte(&mut self) -> (r: u8)
        requires
            old(self).wf(),
            old(self)@.len() > 0,
        ensures
            final(self).wf(),
            r == old(self)@[0],
            final(self)@ == old(self)@.drop_first(),
    {
        let r = self.data[self.head];
        self.head = self.slot_of(1);
        self.len = self.len - 1;
        assert(self@ =~= old(self)@.drop_first());
        r
    }

    /// Writes the first `min(N, buf.len())` bytes of `buf` and returns that count.
    /// Once more than `N` bytes are pending, the oldest ones are overwritten.
    pub fn write(&mut self, buf: &[u8]) -> (r: usize)
        requires
            old(self).wf(),
        ensures
            final(self).wf(),
            r == if buf@.len() < N { buf@.len() } else { N as nat },
            final(self)@ == keep_last(old(self)@ + accepted(buf@, N as nat), N as nat),
    {
        let size: usize = if buf.len() < N { buf.len() } else { N };
        let mut i: usize = 0;
        while i < size
            invariant
                self.wf(),
                i <= size <= buf@.len(),
                self@ == keep_last(old(self)@ + buf@.take(i as int), N as nat),
            decreases size - i,
        {
            self.push_byte(buf[i]);
            proof {
                lemma_keep_last_push(old(self)@ + buf@.take(i as int), buf@[i as int], N as nat);
                assert(old(self)@ + buf@.take(i + 1) =~= (old(self)@ + buf@.take(i as int)).push(buf@[i as int]));
            }
            i = i + 1;
        }
        assert(buf@.take(size as int) =~= accepted(buf@, N as nat));
        size
    }

    /// Moves the oldest pending bytes into `buf`, as many as fit.
    /// Fails with `WouldBlock` when nothing is pending.
    pub fn read(&mut self, buf: &mut [u8]) -> (r: Result<usize, BufferError>)
        requires
            old(self).wf(),
        ensures
            final(self).wf(),
            old(self)@.len() == 0 ==> r == Err::<usize, BufferError>(BufferError::WouldBlock)
                && final(self)@ == old(self)@ && final(buf)@ == old(buf)@,
            old(self)@.len() > 0 ==> r is Ok,
            r matches Ok(n) ==> {
                &&& n == if old(self)@.len() < old(buf)@.len() { old(self)@.len() } else { old(buf)@.len() }
                &&& final(buf)@ == old(self)@.take(n as int) + old(buf)@.skip(n as int)
                &&& final(self)@ == old(self)@.skip(n as int)
            },
    {
        if self.len == 0 {
            return Err(BufferError::WouldBlock);
        }
        let size: usize = if self.len < buf.len() { self.len } else { buf.len() };
        let mut i: usize = 0;
        while i < size
            invariant
                self.wf(),
                i <= size,
                size <= old(self)@.len(),
                size <= buf@.len(),
                buf@.len() == old(buf)@.len(),
                self@ == old(self)@.skip(i as int),
                buf@ == old(self)@.take(i as int) + old(buf)@.skip(i as int),
            decreases size - i,
        {
            let b = self.pop_byte();
            buf[i] = b;
            assert(self@ =~= old(self)@.skip(i + 1));
            assert(buf@ =~= old(self)@.take(i + 1) + old(buf)@.skip(i + 1));
            i = i + 1;
        }
        Ok(size)
    }

    /// Appends every pending byte to `to`, oldest first, and empties the buffer.
    /// The bytes go out in one piece, or in two when they wrap round the end of the array.
    pub fn write_to(&mut self, to: &mut Vec<u8>)
        requires
            old(self).wf(),
        ensures
            final(self).wf(),
            final(self)@ == Seq::<u8>::empty(),
            final(to)@ == old(to)@ + old(self)@,
    {
        if self.len == 0 {
            assert(old(to)@ + old(self)@ =~= old(to)@);
            return;
        }
        let first: usize = if self.len < N - self.head { self.len } else { N - self.head };
        let end = self.head + first;
        to.extend_from_slice(&self.data[self.head..end]);
        assert(to@ =~= old(to)@ + old(self)@.take(first as int));
        if first < self.len {
            let rest = self.len - first;
            to.extend_from_slice(&self.data[0..rest]);
            assert(to@ =~= old(to)@ + old(self)@);
        }
        assert(to@ =~= old(to)@ + old(self)@);
        self.head = self.slot_of(self.len);
        self.len = 0;
        assert(self@ =~= Seq::<u8>::empty());
    }

    /// Appends every pending byte to `to`, oldest first, and empties the buffer; fails with
    /// `WouldBlock`, changing nothing, when nothing is pending.
    pub fn drain(&mut self, to: &mut Vec<u8>) -> (r: Result<(), BufferError>)
        requires
            old(self).wf(),
        ensures
            final(self).wf(),
            old(self)@.len() == 0 <==> r == Err::<(), BufferError>(BufferError::WouldBlock),
            old(self)@.len() == 0 ==> final(self)@ == old(self)@ && final(to)@ == old(to)@,
            old(self)@.len() > 0 ==> final(self)@ == Seq::<u8>::empty() && final(to)@ == old(to)@
                + old(self)@,
    {
        if self.len == 0 {
            return Err(BufferError::WouldBlock);
        }
        self.write_to(to);
        Ok(())
    }
}

impl<const N: usize> Default for CircularBuffer<N> {
    fn default() -> (r: Self)
        ensures
            r.wf(),
            r@ == Seq::<u8>::empty(),
    {
        Self::new()
    }
}

/// Pushing one byte and keeping the last `n` equals keeping the last `n` of the longer sequence.
pub proof fn lemma_keep_last_push(s: Seq<u8>, b: u8, n: nat)
    ensures
        keep_last(keep_last(s, n).push(b), n) == keep_last(s.push(b), n),
{
    assert(keep_last(keep_last(s, n).push(b), n) =~= keep_last(s.push(b), n));
}

/// Appending a sequence and keeping the last `n` commutes with keeping the last `n` first.
pub proof fn lemma_keep_last_append(s: Seq<u8>, c: Seq<u8>, n: nat)
    ensures
        keep_last(keep_last(s, n) + c, n) == keep_last(s + c, n),
{
    assert(keep_last(keep_last(s, n) + c, n) =~= keep_last(s + c, n));
}

/// All chunks of `chunks` joined in order.
pub open spec fn concat_all(chunks: Seq<Seq<u8>>) -> Seq<u8>
    decreases chunks.len(),
{
    if chunks.len() == 0 {
        Seq::empty()
    } else {
        concat_all(chunks.drop_last()) + chunks.last()
    }
}

/// The part of `c` that one `write` into a buffer of capacity `n` accepts.
pub open spec fn accepted(c: Seq<u8>, n: nat) -> Seq<u8> {
    if c.len() < n {
        c
    } else {
        c.take(n as int)
    }
}

/// Pending bytes of a buffer of capacity `n` that held `start`, after one `write` of each
/// of `chunks` in turn.
pub open spec fn after_writes(start: Seq<u8>, chunks: Seq<Seq<u8>>, n: nat) -> Seq<u8>
    decreases chunks.len(),
{
    if chunks.len() == 0 {
        start
    } else {
        keep_last(after_writes(start, chunks.drop_last(), n) + accepted(chunks.last(), n), n)
    }
}

/// Writing chunks of at most `n` bytes each into an empty buffer of capacity `n` leaves
/// pending, and so hands to a full drain, exactly the concatenation of the chunks when
/// they total at most `n` bytes, and exactly the last `n` bytes written otherwise.
pub proof fn lemma_drain_after_writes(chunks: Seq<Seq<u8>>, n: nat)
    requires
        forall|i: int| 0 <= i < chunks.len() ==> (#[trigger] chunks[i]).len() <= n,
    ensures
        concat_all(chunks).len() <= n ==> after_writes(Seq::empty(), chunks, n) == concat_all(chunks),
        concat_all(chunks).len() > n ==> after_writes(Seq::empty(), chunks, n)
            == concat_all(chunks).subrange(concat_all(chunks).len() - n, concat_all(chunks).len() as int),
{
    lemma_after_writes_keeps_last(chunks, n);
}

/// The pending bytes after writes of chunks of at most `n` bytes into an empty buffer are
/// the last `n` bytes of everything written.
pub proof fn lemma_after_writes_keeps_last(chunks: Seq<Seq<u8>>, n: nat)
    requires
        forall|i: int| 0 <= i < chunks.len() ==> (#[trigger] chunks[i]).len() <= n,
    ensures
        after_writes(Seq::empty(), chunks, n) == keep_last(concat_all(chunks), n),
    decreases chunks.len(),
{
    if chunks.len() == 0 {
        assert(keep_last(Seq::<u8>::empty(), n) =~= Seq::<u8>::empty());
    } else {
        assert forall|i: int| 0 <= i < chunks.drop_last().len() implies (
        #[trigger] chunks.drop_last()[i]).len() <= n by {
            assert(chunks.drop_last()[i] == chunks[i]);
        }
        lemma_after_writes_keeps_last(chunks.drop_last(), n);
        assert(chunks.last() == chunks[chunks.len() - 1]);
        assert(accepted(chunks.last(), n) =~= chunks.last());
        lemma_keep_last_append(concat_all(chunks.drop_last()), chunks.last(), n);
    }
}

} // verus!

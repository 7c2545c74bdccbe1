//! The byte obfuscation of a connection's stream: each byte is XORed with one byte of a
//! 64-bit key, taken in big-endian order and carried on from call to call.
use vstd::prelude::*;

verus! {

/// Byte `k` (0 to 7, most significant first) of `hash`.
pub open spec fn key_byte(hash: u64, k: u64) -> u8 {
    ((hash >> ((56 - 8 * k) as u64)) & 0xffu64) as u8
}

/// Position in the stream, modulo 8, `i` bytes after `offset`.
pub open spec fn key_pos(offset: u64, i: int) -> u64 {
    ((offset + i) % 8) as u64
}

/// One direction of an obfuscated stream: its key and the key byte the next byte takes.
pub struct KeyStream {
    hash: u64,
    offset: u64,
}

impl KeyStream {
    /// The next byte of the stream takes key byte `offset`, which is below 8.
    pub closed spec fn wf(&self) -> bool {
        self.offset < 8
    }

    /// The key.
    pub closed spec fn hash(&self) -> u64 {
        self.hash
    }

    /// Index of the key byte the next byte of the stream takes.
    pub closed spec fn offset(&self) -> u64 {
        self.offset
    }

    /// A stream under key `hash`, at its start.
    pub fn new(hash: u64) -> (r: Self)
        ensures
            r.wf(),
            r.hash() == hash,
            r.offset() == 0,
    {
        KeyStream { hash, offset: 0 }
    }

    /// XORs each byte of `data` with the key byte its place in the stream gives, and moves
    /// the stream past them.
    pub fn apply(&mut self, data: &mut [u8])
        requires
            old(self).wf(),
        ensures
            final(self).wf(),
            final(self).hash() == old(self).hash(),
            final(self).offset() == key_pos(old(self).offset(), old(data)@.len() as int),
            final(data)@.len() == old(data)@.len(),
            forall|i: int|
                0 <= i < old(data)@.len() ==> #[trigger] final(data)@[i] == old(data)@[i] ^ key_byte(
                    old(self).hash(),
                    key_pos(old(self).offset(), i),
                ),
    {
        let n = data.len();
        let mut i: usize = 0;
        while i < n
            invariant
                self.wf(),
                self.hash == old(self).hash,
                n == data@.len() == old(data)@.len(),
                i <= n,
                self.offset == key_pos(old(self).offset, i as int),
                forall|j: int|
                    0 <= j < i ==> #[trigger] data@[j] == old(data)@[j] ^ key_byte(
                        self.hash,
                        key_pos(old(self).offset, j),
                    ),
                forall|j: int| i <= j < n ==> #[trigger] data@[j] == old(data)@[j],
            decreases n - i,
        {
            let k = self.offset;
            let b = ((self.hash >> (56 - 8 * k)) & 0xff) as u8;
            data[i] = data[i] ^ b;
            self.offset = if k == 7 { 0 } else { k + 1 };
            i = i + 1;
        }
    }
}

} // verus!

use vstd::prelude::*;

verus! {

/// Number of bytes of RAM.
pub const MEMORY_SIZE: usize = 4096;

/// 4096 bytes of RAM whose accessors require an address inside it.
#[derive(Debug)]
pub struct Memory {
    data: [u8; 4096],
}

impl View for Memory {
    type V = Seq<u8>;

    closed spec fn view(&self) -> Seq<u8> {
        self.data@
    }
}

impl Memory {
    /// The contents always span the whole address space.
    pub proof fn lemma_len(&self)
        ensures
            self@.len() == MEMORY_SIZE,
    {
    }

    /// Zero-filled memory.
    pub fn new() -> (m: Memory)
        ensures
            m@ == Seq::new(MEMORY_SIZE as nat, |k: int| 0u8),
    {
        Memory { data: [0; 4096] }
    }

    /// Stores `value` at `address`.
    pub fn write_byte(&mut self, address: u16, value: u8)
        requires
            address < MEMORY_SIZE,
        ensures
            final(self)@ == old(self)@.update(address as int, value),
    {
        self.data[address as usize] = value;
    }

    /// The byte at `address`.
    pub fn read_byte(&self, address: u16) -> (b: u8)
        requires
            address < MEMORY_SIZE,
        ensures
            b == self@[address as int],
    {
        self.data[address as usize]
    }

    /// The big-endian word made of the bytes at `address` and `address + 1`.
    pub fn read_word(&self, address: u16) -> (w: u16)
        requires
            address + 1 < MEMORY_SIZE,
        ensures
            w == self@[address as int] * 256 + self@[address + 1],
    {
        let mut result: u16 = self.read_byte(address) as u16;
        let low = self.read_byte(address + 1) as u16;
        assert((result << 8) | low == result * 256 + low) by (bit_vector)
            requires result < 256, low < 256;
        result = (result << 8) | low;
        result
    }
}

/// A byte written is the byte read back; every other address keeps its byte.
pub proof fn lemma_read_after_write(m: Seq<u8>, address: u16, value: u8, other: u16)
    requires
        m.len() == MEMORY_SIZE,
        address < MEMORY_SIZE,
        other < MEMORY_SIZE,
        other != address,
    ensures
        m.update(address as int, value)[address as int] == value,
        m.update(address as int, value)[other as int] == m[other as int],
{
}

} // verus!

use vstd::prelude::*;

verus! {

/// 4096 bytes of RAM. Reads outside it give `None`, writes outside it are dropped.
#[derive(Debug)]
pub struct Memory {
    data: [u8; 4096],
}

impl View for Memory {
    type V = Seq<u8>;

    closed spec fn view(&self) -> Seq<u8> {
        self.data@
    }
}

impl Memory {
    /// The contents always span the whole address space.
    pub proof fn lemma_len(&self)
        ensures
            self@.len() == 4096,
    {
    }

    /// Zero-filled memory.
    pub fn new() -> (m: Memory)
        ensures
            m@ == Seq::new(4096, |k: int| 0u8),
    {
        Memory { data: [0; 4096] }
    }

    /// Stores `value` at `address` when the address lies in RAM.
    pub fn write_byte(&mut self, address: u16, value: u8)
        ensures
            final(self)@ == (if address < 4096 {
                old(self)@.update(address as int, value)
            } else {
                old(self)@
            }),
    {
        if address < 4096 {
            self.data[address as usize] = value;
        }
    }

    /// The byte at `address`, or None outside RAM.
    pub fn read_byte(&self, address: u16) -> (b: Option<u8>)
        ensures
            b == (if address < 4096 { Some(self@[address as int]) } else { None::<u8> }),
    {
        if address < 4096 {
            Some(self.data[address as usize])
        } else {
            None
        }
    }

    /// The big-endian word at `address` and `address + 1`, or None when either
    /// lies outside RAM.
    pub fn read_word(&self, address: u16) -> (w: Option<u16>)
        ensures
            w == (if address + 1 < 4096 {
                Some((self@[address as int] * 256 + self@[address + 1]) as u16)
            } else {
                None::<u16>
            }),
    {
        let byte1 = match self.read_byte(address) {
            Some(b) => b as u16,
            None => return None,
        };
        let byte2 = match self.read_byte(address + 1) {
            Some(b) => b as u16,
            None => return None,
        };
        assert((byte1 << 8) | byte2 == byte1 * 256 + byte2) by (bit_vector)
            requires
                byte1 < 256,
                byte2 < 256,
        ;
        Some((byte1 << 8) | byte2)
    }
}

/// A byte written is the byte read back; every other address keeps its byte.
pub proof fn lemma_read_after_write(m: Seq<u8>, address: u16, value: u8, other: u16)
    requires
        m.len() == 4096,
        address < 4096,
        other != address,
    ensures
        m.update(address as int, value)[address as int] == value,
        other < 4096 ==> m.update(address as int, value)[other as int] == m[other as int],
{
}

} // verus!

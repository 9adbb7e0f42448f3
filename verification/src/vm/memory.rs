//! Sparse byte-addressable memory with little-endian word access.

use super::opcodes::VmError;
use std::collections::HashMap;
use vstd::prelude::*;

verus! {

broadcast use vstd::std_specs::hash::group_hash_axioms;

/// The mathematical content of a [`Memory`]: the cells that have been
/// written, and the size that bounds every address.
pub struct MemoryView {
    pub cells: Map<u32, u8>,
    pub size: nat,
}

/// Assembles a word from four bytes, least significant first.
pub open spec fn word_of_bytes(b0: u8, b1: u8, b2: u8, b3: u8) -> u32 {
    (b0 as u32) | ((b1 as u32) << 8) | ((b2 as u32) << 16) | ((b3 as u32) << 24)
}

/// Byte `k` (0 to 3) of a word, least significant first.
pub open spec fn byte_of_word(value: u32, k: nat) -> u8 {
    ((value >> (8 * k) as u32) & 0xff) as u8
}

/// The four bytes of a word, least significant first.
pub open spec fn bytes_of_word(value: u32) -> Seq<u8> {
    seq![
        byte_of_word(value, 0),
        byte_of_word(value, 1),
        byte_of_word(value, 2),
        byte_of_word(value, 3),
    ]
}

/// How many of `len` consecutive bytes starting at `start` lie inside a
/// memory of `size` bytes with 32-bit addresses.
pub open spec fn bytes_in_bounds(start: u32, len: nat, size: nat) -> nat {
    let limit = if size < 0x1_0000_0000 {
        size
    } else {
        0x1_0000_0000
    };
    if limit <= start {
        0
    } else if start + len <= limit {
        len
    } else {
        (limit - start) as nat
    }
}

impl MemoryView {
    /// The byte at `addr`: what was last written there, or zero.
    pub open spec fn byte(self, addr: u32) -> u8 {
        if self.cells.contains_key(addr) {
            self.cells[addr]
        } else {
            0
        }
    }

    /// The little-endian word whose first byte is at `addr`.
    pub open spec fn word(self, addr: u32) -> u32
        recommends
            addr % 4 == 0,
    {
        word_of_bytes(
            self.byte(addr),
            self.byte((addr + 1) as u32),
            self.byte((addr + 2) as u32),
            self.byte((addr + 3) as u32),
        )
    }

    /// The memory after `data` has been written to consecutive addresses
    /// from `start` on.
    pub open spec fn store(self, start: u32, data: Seq<u8>) -> MemoryView {
        MemoryView {
            cells: Map::new(
                |a: u32| self.cells.contains_key(a) || start <= a < start + data.len(),
                |a: u32|
                    if start <= a < start + data.len() {
                        data[a - start]
                    } else {
                        self.cells[a]
                    },
            ),
            size: self.size,
        }
    }

    /// What reading a byte yields.
    pub open spec fn read_byte(self, addr: u32) -> Result<u8, VmError> {
        if addr < self.size {
            Ok(self.byte(addr))
        } else {
            Err(VmError::MemoryOutOfBounds)
        }
    }

    /// What reading a word yields: alignment is checked before bounds.
    pub open spec fn read_word(self, addr: u32) -> Result<u32, VmError> {
        if addr % 4 != 0 {
            Err(VmError::UnalignedAccess)
        } else if addr + 3 < self.size {
            Ok(self.word(addr))
        } else {
            Err(VmError::MemoryOutOfBounds)
        }
    }

    /// The memory after an attempt to write `data` from `start` on: the
    /// bytes that lie in bounds are written, the others are not.
    pub open spec fn after_write(self, start: u32, data: Seq<u8>) -> MemoryView {
        self.store(start, data.take(bytes_in_bounds(start, data.len(), self.size) as int))
    }

    /// Whether writing `len` bytes from `start` on succeeds.
    pub open spec fn write_result(self, start: u32, len: nat) -> Result<(), VmError> {
        if bytes_in_bounds(start, len, self.size) == len {
            Ok(())
        } else {
            Err(VmError::MemoryOutOfBounds)
        }
    }

    /// The memory after an attempt to write a word: nothing changes at an
    /// unaligned address.
    pub open spec fn after_write_word(self, addr: u32, value: u32) -> MemoryView {
        if addr % 4 != 0 {
            self
        } else {
            self.after_write(addr, bytes_of_word(value))
        }
    }

    /// Whether writing a word at `addr` succeeds, and how it fails.
    pub open spec fn write_word_result(self, addr: u32) -> Result<(), VmError> {
        if addr % 4 != 0 {
            Err(VmError::UnalignedAccess)
        } else {
            self.write_result(addr, 4)
        }
    }
}

/// Sparse memory: a map from 32-bit addresses to bytes under a size bound.
/// Bytes never written read as zero.
#[derive(Debug)]
pub struct Memory {
    memory: HashMap<u32, u8>,
    size: usize,
}

impl View for Memory {
    type V = MemoryView;

    closed spec fn view(&self) -> MemoryView {
        MemoryView { cells: self.memory@, size: self.size as nat }
    }
}

impl Clone for Memory {
    fn clone(&self) -> (copy: Self)
        ensures
            copy@ == self@,
    {
        Memory { memory: self.memory.clone(), size: self.size }
    }
}

impl Memory {
    /// An empty memory of `size` bytes.
    pub fn new(size: usize) -> (mem: Self)
        ensures
            mem@ == (MemoryView { cells: Map::empty(), size: size as nat }),
    {
        Self { memory: HashMap::new(), size }
    }

    /// Reads the byte at `addr`.
    pub fn read_byte(&self, addr: u32) -> (read: Result<u8, VmError>)
        ensures
            read == self@.read_byte(addr),
    {
        if addr as usize >= self.size {
            return Err(VmError::MemoryOutOfBounds);
        }
        match self.memory.get(&addr) {
            Some(byte) => Ok(*byte),
            None => Ok(0),
        }
    }

    /// Writes `value` at `addr`; an address out of bounds leaves the memory
    /// as it was.
    pub fn write_byte(&mut self, addr: u32, value: u8) -> (written: Result<(), VmError>)
        ensures
            written == old(self)@.write_result(addr, 1),
            final(self)@ == old(self)@.after_write(addr, seq![value]),
            final(self)@.size == old(self)@.size,
            written is Ok ==> final(self)@.cells == old(self)@.cells.insert(addr, value),
            written is Err ==> final(self)@ == old(self)@,
    {
        if addr as usize >= self.size {
            assert(old(self)@.after_write(addr, seq![value]).cells =~= old(self)@.cells);
            return Err(VmError::MemoryOutOfBounds);
        }
        self.memory.insert(addr, value);
        assert(seq![value].take(1) =~= seq![value]);
        assert(old(self)@.after_write(addr, seq![value]).cells =~= old(self)@.cells.insert(
            addr,
            value,
        ));
        Ok(())
    }

    /// Reads the little-endian word at `addr`. An address that is not a
    /// multiple of four is refused as unaligned; one whose four bytes are
    /// not all in bounds, as out of bounds.
    pub fn read_word(&self, addr: u32) -> (read: Result<u32, VmError>)
        ensures
            read == self@.read_word(addr),
    {
        if addr % 4 != 0 {
            return Err(VmError::UnalignedAccess);
        }
        let b0 = self.read_byte(addr)?;
        let b1 = self.read_byte(addr + 1)?;
        let b2 = self.read_byte(addr + 2)?;
        let b3 = self.read_byte(addr + 3)?;
        Ok((b0 as u32) | ((b1 as u32) << 8) | ((b2 as u32) << 16) | ((b3 as u32) << 24))
    }

    /// Writes `value` at `addr` as four little-endian bytes.
    ///
    /// An unaligned address changes nothing. At an aligned address the bytes
    /// are written in order, so one that is out of bounds stops the write
    /// after the bytes before it.
    pub fn write_word(&mut self, addr: u32, value: u32) -> (written: Result<(), VmError>)
        ensures
            written == old(self)@.write_word_result(addr),
            final(self)@ == old(self)@.after_write_word(addr, value),
    {
        if addr % 4 != 0 {
            return Err(VmError::UnalignedAccess);
        }
        let bytes: [u8; 4] = [
            (value & 0xff) as u8,
            ((value >> 8) & 0xff) as u8,
            ((value >> 16) & 0xff) as u8,
            ((value >> 24) & 0xff) as u8,
        ];
        assert(bytes@ =~= bytes_of_word(value)) by {
            assert(value >> 0u32 == value) by (bit_vector);
        }
        self.load_program(bytes.as_slice(), addr)
    }

    /// Writes `program` to consecutive addresses from `start_addr` on.
    ///
    /// The bytes are written in order; the first one that falls out of
    /// bounds stops the write and is reported, with the bytes before it
    /// already in memory.
    pub fn load_program(&mut self, program: &[u8], start_addr: u32) -> (loaded: Result<
        (),
        VmError,
    >)
        ensures
            loaded == old(self)@.write_result(start_addr, program@.len()),
            final(self)@ == old(self)@.after_write(start_addr, program@),
    {
        let mut i: usize = 0;
        assert(old(self)@.store(start_addr, program@.take(0)).cells =~= old(self)@.cells);
        while i < program.len()
            invariant
                i <= program@.len(),
                self@ == old(self)@.store(start_addr, program@.take(i as int)),
                bytes_in_bounds(start_addr, i as nat, old(self)@.size) == i,
            decreases program@.len() - i,
        {
            if i > (u32::MAX - start_addr) as usize {
                return Err(VmError::MemoryOutOfBounds);
            }
            let addr = start_addr + i as u32;
            match self.write_byte(addr, program[i]) {
                Ok(()) => {},
                Err(e) => {
                    return Err(e);
                },
            }
            assert(self@.cells =~= old(self)@.store(
                start_addr,
                program@.take(i as int + 1),
            ).cells);
            i += 1;
        }
        assert(program@.take(i as int) =~= program@);
        Ok(())
    }
}

/// Splitting a word into bytes and assembling them again gives the word.
pub proof fn lemma_word_of_its_bytes(value: u32)
    ensures
        word_of_bytes(
            byte_of_word(value, 0),
            byte_of_word(value, 1),
            byte_of_word(value, 2),
            byte_of_word(value, 3),
        ) == value,
{
    assert(((((value >> 0u32) & 0xff) as u8) as u32) | (((((value >> 8u32) & 0xff) as u8) as u32)
        << 8) | (((((value >> 16u32) & 0xff) as u8) as u32) << 16) | (((((value >> 24u32)
        & 0xff) as u8) as u32) << 24) == value) by (bit_vector);
}

/// A word written at an aligned address within bounds is the word read
/// back from that address.
pub proof fn lemma_read_after_write_word(mem: MemoryView, addr: u32, value: u32)
    requires
        addr % 4 == 0,
        addr + 3 < mem.size,
    ensures
        mem.write_word_result(addr) == Ok::<(), VmError>(()),
        mem.after_write_word(addr, value).read_word(addr) == Ok::<u32, VmError>(value),
{
    let data = bytes_of_word(value);
    assert(data.take(4) =~= data);
    lemma_word_of_its_bytes(value);
}

/// A write leaves every byte outside the written range as it was.
pub proof fn lemma_store_elsewhere(mem: MemoryView, start: u32, data: Seq<u8>, addr: u32)
    requires
        addr < start || start + data.len() <= addr,
    ensures
        mem.store(start, data).byte(addr) == mem.byte(addr),
{
}

} // verus!

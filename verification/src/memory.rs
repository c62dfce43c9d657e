//! Sparse byte-addressable memory.
//!
//! Memory is a map from absolute 32-bit addresses to bytes: only bytes that
//! were written are stored, and reading an address that was never written
//! yields the fill byte 0xFF, distinguishable from zero-initialized memory.
//! Every 32-bit address is valid, so every access succeeds. Halfword and
//! word accesses are little-endian compositions of independent byte
//! accesses, which makes misaligned access work by construction; addresses
//! wrap around the top of the address space.

use crate::bits::{half_from_bytes, word_from_bytes};
use crate::EmulatorError;
use std::collections::HashMap;
use vstd::prelude::*;

verus! {

broadcast use vstd::std_specs::hash::group_hash_axioms;

/// The byte that a read of address `a` returns under memory contents `m`:
/// the byte written there, or the fill byte 0xFF.
pub open spec fn byte_at(m: Map<u32, u8>, a: u32) -> u8 {
    if m.contains_key(a) {
        m[a]
    } else {
        0xFF
    }
}

/// The halfword that a read of address `a` returns (little-endian).
pub open spec fn half_at(m: Map<u32, u8>, a: u32) -> u16 {
    half_from_bytes(byte_at(m, a), byte_at(m, a.wrapping_add(1)))
}

/// The word that a read of address `a` returns (little-endian).
pub open spec fn word_at(m: Map<u32, u8>, a: u32) -> u32 {
    word_from_bytes(
        byte_at(m, a),
        byte_at(m, a.wrapping_add(1)),
        byte_at(m, a.wrapping_add(2)),
        byte_at(m, a.wrapping_add(3)),
    )
}

/// Memory contents after one byte is stored.
pub open spec fn store_byte(m: Map<u32, u8>, a: u32, v: u8) -> Map<u32, u8> {
    m.insert(a, v)
}

/// Memory contents after a halfword is stored (little-endian).
pub open spec fn store_half(m: Map<u32, u8>, a: u32, v: u16) -> Map<u32, u8> {
    store_byte(store_byte(m, a, (v & 0xFF) as u8), a.wrapping_add(1), ((v >> 8) & 0xFF) as u8)
}

/// Memory contents after a word is stored (little-endian).
pub open spec fn store_word(m: Map<u32, u8>, a: u32, v: u32) -> Map<u32, u8> {
    store_byte(
        store_byte(
            store_byte(store_byte(m, a, (v & 0xFF) as u8), a.wrapping_add(1), ((v >> 8) & 0xFF) as u8),
            a.wrapping_add(2),
            ((v >> 16) & 0xFF) as u8,
        ),
        a.wrapping_add(3),
        ((v >> 24) & 0xFF) as u8,
    )
}

/// Memory contents after the byte sequence `data` is stored starting at `a`.
pub open spec fn store_bytes(m: Map<u32, u8>, a: u32, data: Seq<u8>) -> Map<u32, u8>
    decreases data.len(),
{
    if data.len() == 0 {
        m
    } else {
        store_bytes(store_byte(m, a, data[0]), a.wrapping_add(1), data.skip(1))
    }
}

/// The sparse memory of the simulated machine.
pub struct Memory {
    /// Only the bytes that were written.
    data: HashMap<u32, u8>,
    /// The conventional RAM base; a fixed accessor value, reads and writes
    /// are not bounded by it.
    base_address: u32,
}

impl View for Memory {
    type V = Map<u32, u8>;

    closed spec fn view(&self) -> Map<u32, u8> {
        self.data@
    }
}

impl Memory {
    /// A fresh, empty memory with the conventional RISC-V RAM base address.
    pub fn new() -> (r: Memory)
        ensures
            r@ == Map::<u32, u8>::empty(),
            r.spec_base() == 0x8000_0000u32,
    {
        Memory { data: HashMap::new(), base_address: 0x8000_0000 }
    }

    /// A fresh memory; the size hint is irrelevant to the sparse
    /// representation and is ignored.
    pub fn with_size(size: usize) -> (r: Memory)
        ensures
            r@ == Map::<u32, u8>::empty(),
            r.spec_base() == 0x8000_0000u32,
    {
        let _ = size;
        Memory::new()
    }

    /// The base address fixed at construction.
    pub closed spec fn spec_base(&self) -> u32 {
        self.base_address
    }

    /// The base address fixed at construction.
    pub fn base_address(&self) -> (r: u32)
        ensures
            r == self.spec_base(),
    {
        self.base_address
    }

    /// Whether no byte has been written yet.
    pub fn is_empty(&self) -> (r: bool)
        ensures
            r == (self@ == Map::<u32, u8>::empty()),
    {
        let r = self.data.is_empty();
        proof {
            if self@.is_empty() {
                assert(self@ =~= Map::<u32, u8>::empty());
            }
        }
        r
    }

    /// Read one byte; an address never written yields the fill byte 0xFF.
    pub fn read_byte(&self, address: u32) -> (r: Result<u8, EmulatorError>)
        ensures
            r == Ok::<u8, EmulatorError>(byte_at(self@, address)),
    {
        match self.data.get(&address) {
            Some(v) => Ok(*v),
            None => Ok(0xFF),
        }
    }

    /// Write one byte; every address is valid.
    pub fn write_byte(&mut self, address: u32, value: u8) -> (r: Result<(), EmulatorError>)
        ensures
            r == Ok::<(), EmulatorError>(()),
            final(self)@ == store_byte(old(self)@, address, value),
            final(self).spec_base() == old(self).spec_base(),
    {
        self.data.insert(address, value);
        Ok(())
    }

    /// Read a halfword, little-endian, from two independent byte accesses;
    /// misaligned addresses are serviced the same way.
    pub fn read_halfword(&self, address: u32) -> (r: Result<u16, EmulatorError>)
        ensures
            r == Ok::<u16, EmulatorError>(half_at(self@, address)),
    {
        let byte0 = match self.read_byte(address) {
            Ok(b) => b,
            Err(e) => {
                return Err(e);
            },
        };
        let byte1 = match self.read_byte(address.wrapping_add(1)) {
            Ok(b) => b,
            Err(e) => {
                return Err(e);
            },
        };
        Ok((byte0 as u16) | ((byte1 as u16) << 8u16))
    }

    /// Read a word, little-endian, from four independent byte accesses;
    /// misaligned addresses are serviced the same way.
    pub fn read_word(&self, address: u32) -> (r: Result<u32, EmulatorError>)
        ensures
            r == Ok::<u32, EmulatorError>(word_at(self@, address)),
    {
        let byte0 = match self.read_byte(address) {
            Ok(b) => b,
            Err(e) => {
                return Err(e);
            },
        };
        let byte1 = match self.read_byte(address.wrapping_add(1)) {
            Ok(b) => b,
            Err(e) => {
                return Err(e);
            },
        };
        let byte2 = match self.read_byte(address.wrapping_add(2)) {
            Ok(b) => b,
            Err(e) => {
                return Err(e);
            },
        };
        let byte3 = match self.read_byte(address.wrapping_add(3)) {
            Ok(b) => b,
            Err(e) => {
                return Err(e);
            },
        };
        Ok((byte0 as u32) | ((byte1 as u32) << 8u32) | ((byte2 as u32) << 16u32) | ((byte3
            as u32) << 24u32))
    }

    /// Write a halfword, little-endian, as two independent byte writes.
    pub fn write_halfword(&mut self, address: u32, value: u16) -> (r: Result<(), EmulatorError>)
        ensures
            r == Ok::<(), EmulatorError>(()),
            final(self)@ == store_half(old(self)@, address, value),
            final(self).spec_base() == old(self).spec_base(),
    {
        let r0 = self.write_byte(address, (value & 0xFF) as u8);
        if let Err(e) = r0 {
            return Err(e);
        }
        let r1 = self.write_byte(address.wrapping_add(1), ((value >> 8u16) & 0xFF) as u8);
        if let Err(e) = r1 {
            return Err(e);
        }
        Ok(())
    }

    /// Write a word, little-endian, as four independent byte writes.
    pub fn write_word(&mut self, address: u32, value: u32) -> (r: Result<(), EmulatorError>)
        ensures
            r == Ok::<(), EmulatorError>(()),
            final(self)@ == store_word(old(self)@, address, value),
            final(self).spec_base() == old(self).spec_base(),
    {
        let r0 = self.write_byte(address, (value & 0xFF) as u8);
        if let Err(e) = r0 {
            return Err(e);
        }
        let r1 = self.write_byte(address.wrapping_add(1), ((value >> 8u32) & 0xFF) as u8);
        if let Err(e) = r1 {
            return Err(e);
        }
        let r2 = self.write_byte(address.wrapping_add(2), ((value >> 16u32) & 0xFF) as u8);
        if let Err(e) = r2 {
            return Err(e);
        }
        let r3 = self.write_byte(address.wrapping_add(3), ((value >> 24u32) & 0xFF) as u8);
        if let Err(e) = r3 {
            return Err(e);
        }
        Ok(())
    }

    /// Write a byte sequence starting at `address`; used by a loader to
    /// populate memory before execution starts.
    pub fn load_data(&mut self, address: u32, data: &[u8]) -> (r: Result<(), EmulatorError>)
        requires
            data@.len() <= 0xFFFF_FFFF,
        ensures
            r == Ok::<(), EmulatorError>(()),
            final(self)@ == store_bytes(old(self)@, address, data@),
            final(self).spec_base() == old(self).spec_base(),
    {
        let mut i: usize = 0;
        proof {
            assert(data@.skip(0) =~= data@);
        }
        while i < data.len()
            invariant
                i <= data.len(),
                data@.len() <= 0xFFFF_FFFF,
                store_bytes(old(self)@, address, data@) == store_bytes(
                    self@,
                    address.wrapping_add(i as u32),
                    data@.skip(i as int),
                ),
                self.spec_base() == old(self).spec_base(),
            decreases data.len() - i,
        {
            proof {
                assert(data@.skip(i as int)[0] == data@[i as int]);
                assert(data@.skip(i as int).skip(1) =~= data@.skip(i as int + 1));
                assert(address.wrapping_add(i as u32).wrapping_add(1) == address.wrapping_add(
                    (i + 1) as u32,
                ));
            }
            let r = self.write_byte(address.wrapping_add(i as u32), data[i]);
            if let Err(e) = r {
                return Err(e);
            }
            i = i + 1;
        }
        proof {
            assert(data@.skip(data@.len() as int) =~= Seq::<u8>::empty());
        }
        Ok(())
    }
}


impl Default for Memory {
    /// An empty memory, as `Memory::new` builds it.
    fn default() -> (r: Memory)
        ensures
            r@ == Map::<u32, u8>::empty(),
            r.spec_base() == 0x8000_0000u32,
    {
        Memory::new()
    }
}

} // verus!

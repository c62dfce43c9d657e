//! Tests of the sparse byte-addressable memory.

use nekov::memory::Memory;

#[test]
fn test_memory_new() {
    let memory = Memory::new();
    assert_eq!(memory.base_address(), 0x8000_0000);
    // Sparse memory starts empty
    assert!(memory.is_empty());
}

#[test]
fn test_memory_byte_access() {
    let mut memory = Memory::new();
    let base = memory.base_address();

    // Writing and reading bytes
    memory.write_byte(base, 0x42).unwrap();
    assert_eq!(memory.read_byte(base).unwrap(), 0x42);

    memory.write_byte(base + 1, 0xFF).unwrap();
    assert_eq!(memory.read_byte(base + 1).unwrap(), 0xFF);
}

#[test]
fn test_memory_word_access() {
    let mut memory = Memory::new();
    let base = memory.base_address();

    // Writing and reading aligned words
    memory.write_word(base, 0x12345678).unwrap();
    assert_eq!(memory.read_word(base).unwrap(), 0x12345678);

    // Multiple words
    memory.write_word(base + 4, 0xDEADBEEF).unwrap();
    assert_eq!(memory.read_word(base + 4).unwrap(), 0xDEADBEEF);
    assert_eq!(memory.read_word(base).unwrap(), 0x12345678); // First word unchanged
}

#[test]
fn test_memory_misaligned_access() {
    let mut memory = Memory::new();
    let base = memory.base_address();

    // Misaligned halfword access works
    memory.write_halfword(base + 1, 0x1234).unwrap();
    assert_eq!(memory.read_halfword(base + 1).unwrap(), 0x1234);

    // Misaligned word access works
    memory.write_word(base + 5, 0x12345678).unwrap();
    assert_eq!(memory.read_word(base + 5).unwrap(), 0x12345678);

    // Individual bytes
    assert_eq!(memory.read_byte(base + 5).unwrap(), 0x78); // LSB
    assert_eq!(memory.read_byte(base + 6).unwrap(), 0x56);
    assert_eq!(memory.read_byte(base + 7).unwrap(), 0x34);
    assert_eq!(memory.read_byte(base + 8).unwrap(), 0x12); // MSB
}

#[test]
fn test_memory_load_data() {
    let mut memory = Memory::new();
    let base = memory.base_address();

    let data = vec![0x01, 0x02, 0x03, 0x04];
    memory.load_data(base, &data).unwrap();

    assert_eq!(memory.read_byte(base).unwrap(), 0x01);
    assert_eq!(memory.read_byte(base + 1).unwrap(), 0x02);
    assert_eq!(memory.read_byte(base + 2).unwrap(), 0x03);
    assert_eq!(memory.read_byte(base + 3).unwrap(), 0x04);
}

#[test]
fn test_memory_uninitialized_read() {
    let memory = Memory::new();
    let base = memory.base_address();

    // Reading uninitialized memory returns the fill byte 0xFF
    assert_eq!(memory.read_byte(base).unwrap(), 0xFF);
    assert_eq!(memory.read_byte(base + 100).unwrap(), 0xFF);
    assert_eq!(memory.read_byte(0x1000).unwrap(), 0xFF); // Any address works
}

#[test]
fn test_memory_read_uninitialized_word() {
    let memory = Memory::new();
    let base = memory.base_address();

    // An uninitialized word reads 0xFFFFFFFF (all bytes 0xFF)
    assert_eq!(memory.read_word(base).unwrap(), 0xFFFFFFFF);
}

#[test]
fn test_little_endian_encoding() {
    let mut memory = Memory::new();
    let base = memory.base_address();

    // Write a word and check individual bytes
    memory.write_word(base, 0x12345678).unwrap();
    assert_eq!(memory.read_byte(base).unwrap(), 0x78); // LSB
    assert_eq!(memory.read_byte(base + 1).unwrap(), 0x56);
    assert_eq!(memory.read_byte(base + 2).unwrap(), 0x34);
    assert_eq!(memory.read_byte(base + 3).unwrap(), 0x12); // MSB
}

#[test]
fn test_memory_with_size_behaves_like_new() {
    let memory = Memory::with_size(4096);
    assert_eq!(memory.base_address(), 0x8000_0000);
    assert!(memory.is_empty());
}

#[test]
fn test_memory_word_roundtrip_at_address_wrap() {
    let mut memory = Memory::new();

    // A word stored at the very top of the address space wraps around
    memory.write_word(0xFFFF_FFFE, 0xA1B2C3D4).unwrap();
    assert_eq!(memory.read_word(0xFFFF_FFFE).unwrap(), 0xA1B2C3D4);
    assert_eq!(memory.read_byte(0xFFFF_FFFE).unwrap(), 0xD4);
    assert_eq!(memory.read_byte(0xFFFF_FFFF).unwrap(), 0xC3);
    assert_eq!(memory.read_byte(0x0000_0000).unwrap(), 0xB2);
    assert_eq!(memory.read_byte(0x0000_0001).unwrap(), 0xA1);
}

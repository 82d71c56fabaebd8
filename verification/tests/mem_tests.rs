use uvm::mem::{MemError, Memory, MemoryFlags};

fn rf() -> MemoryFlags {
    MemoryFlags { read: true, write: false, execute: false }
}

fn rw() -> MemoryFlags {
    MemoryFlags { read: true, write: true, execute: false }
}

fn xf() -> MemoryFlags {
    MemoryFlags { read: false, write: false, execute: true }
}

fn none() -> MemoryFlags {
    MemoryFlags { read: false, write: false, execute: false }
}

#[test]
fn untouched_pages_read_zero() {
    let m = Memory::new();
    // a page never named by any initialization call reads as zero bytes
    assert_eq!(m.read_u8(0, none()), Ok(0));
    assert_eq!(m.read_u8(0xDEAD_BEEF, none()), Ok(0));
    assert_eq!(m.read_u8(0xFFFF_FFFF, none()), Ok(0));
}

#[test]
fn init_zero_marks_but_does_not_allocate() {
    let mut m = Memory::new();
    // flag a large range: lazy backing means reads still return zero
    assert_eq!(m.init_zero(0x1_0000, rf(), 0x10_0000), Ok(()));
    assert_eq!(m.read_u8(0x1_0000, rf()), Ok(0));
    assert_eq!(m.read_u8(0x8_1234, rf()), Ok(0));
    assert_eq!(m.read_u8(0x10_FFFF, rf()), Ok(0));
    let bytes = m.read_bytes(0x2_0000, rf(), 2048).unwrap();
    assert!(bytes.iter().all(|b| *b == 0));
}

#[test]
fn init_zero_beyond_address_space_fails() {
    let mut m = Memory::new();
    assert_eq!(
        m.init_zero(0xFFFF_FC00, rf(), 0x800),
        Err(MemError::AddressSpaceExhausted)
    );
    // the largest range that still fits is accepted
    assert_eq!(m.init_zero(0xFFFF_FC00, rf(), 0x400), Ok(()));
}

#[test]
fn init_copy_round_trip_across_pages() {
    let mut m = Memory::new();
    let src: Vec<u8> = (0u32..2500).map(|i| (i % 251) as u8).collect();
    // unaligned base, range crossing three page boundaries
    let base: u32 = 0x13FE;
    assert_eq!(m.init_copy(base, rf(), &src, 0, 2500), Ok(()));
    let back = m.read_bytes(base, rf(), 2500).unwrap();
    assert_eq!(back, src);
    // an offset slice copies exactly the slice
    let mut m2 = Memory::new();
    assert_eq!(m2.init_copy(0x7FF, rf(), &src, 100, 16), Ok(()));
    let back2 = m2.read_bytes(0x7FF, rf(), 16).unwrap();
    assert_eq!(&back2[..], &src[100..116]);
}

#[test]
fn init_copy_source_out_of_bounds() {
    let mut m = Memory::new();
    let src: Vec<u8> = vec![1, 2, 3, 4];
    assert_eq!(
        m.init_copy(0, rf(), &src, 0, 5),
        Err(MemError::SourceOutOfBounds)
    );
    assert_eq!(
        m.init_copy(0, rf(), &src, 3, 2),
        Err(MemError::SourceOutOfBounds)
    );
    assert_eq!(
        m.init_copy(0xFFFF_FFFF, rf(), &src, 0, 2),
        Err(MemError::AddressSpaceExhausted)
    );
}

#[test]
fn permission_checks_are_per_page_and_superset_friendly() {
    let mut m = Memory::new();
    assert_eq!(m.init_zero(0x4000, rw(), 0x400), Ok(()));
    // reading with fewer flags than the page carries succeeds
    assert_eq!(m.read_u8(0x4000, rf()), Ok(0));
    assert_eq!(m.read_u8(0x4000, rw()), Ok(0));
    assert_eq!(m.read_u8(0x4000, none()), Ok(0));
    // asking for a capability the page lacks is a fault
    assert!(m.read_u8(0x4000, xf()).is_err());
    // a multi-page read faults when any touched page lacks the flags
    assert!(m.read_bytes(0x4000, rf(), 0x401).is_err());
    assert!(m.read_bytes(0x4000, rf(), 0x400).is_ok());
}

#[test]
fn typed_reads_little_endian() {
    let mut m = Memory::new();
    let src: Vec<u8> = vec![0x11, 0x22, 0x33, 0x44, 0x55, 0x66, 0x77, 0x88];
    assert_eq!(m.init_copy(0x800, rf(), &src, 0, 8), Ok(()));
    assert_eq!(m.read_u16_aligned(0x800, rf()), Ok(0x2211));
    assert_eq!(m.read_u32_aligned(0x800, rf()), Ok(0x44332211));
    assert_eq!(m.read_u64_aligned(0x800, rf()), Ok(0x8877665544332211));
    assert_eq!(m.read_u16_unaligned(0x801, rf()), Ok(0x3322));
    assert_eq!(m.read_u32_unaligned(0x801, rf()), Ok(0x55443322));
    assert_eq!(m.read_u64_unaligned(0x800, rf()), Ok(0x8877665544332211));
}

#[test]
fn unaligned_reads_cross_page_boundaries() {
    let mut m = Memory::new();
    let src: Vec<u8> = vec![0xAA, 0xBB, 0xCC, 0xDD];
    // straddle the boundary between page 0 and page 1
    assert_eq!(m.init_copy(0x3FE, rf(), &src, 0, 4), Ok(()));
    assert_eq!(m.read_u32_unaligned(0x3FE, rf()), Ok(0xDDCCBBAA));
    assert_eq!(m.read_u16_unaligned(0x3FF, rf()), Ok(0xCCBB));
}

#[test]
fn copy_preserves_neighbouring_bytes() {
    let mut m = Memory::new();
    let first: Vec<u8> = vec![1, 2, 3, 4];
    let second: Vec<u8> = vec![9, 9];
    assert_eq!(m.init_copy(0x1000, rf(), &first, 0, 4), Ok(()));
    assert_eq!(m.init_copy(0x1001, rf(), &second, 0, 2), Ok(()));
    let back = m.read_bytes(0x1000, rf(), 4).unwrap();
    assert_eq!(back, vec![1, 9, 9, 4]);
}

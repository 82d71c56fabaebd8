//! ELF32 loader: validates a little-endian ARM executable image, walks its
//! program header table, and populates a fresh `Memory` with every loadable
//! segment, yielding the entry address.

use vstd::prelude::*;

use crate::mem::{MemError, Memory, MemoryFlags, NUM_PAGES, PAGE_SIZE};

verus! {

pub type Addr = u32;

pub type Off = u32;

pub type Section = u16;

pub type Versym = u16;

/// A load failure: the image is malformed, truncated, or does not fit the
/// address space. Nothing of a failed load is kept.
#[derive(Clone, Copy, PartialEq, Eq, Structural, Debug)]
pub enum LoadError {
    /// A needed byte range lies past the end of the image.
    Truncated,
    /// The first four bytes are not the ELF signature.
    BadMagic,
    /// Not a 32-bit image.
    UnsupportedClass,
    /// Not a little-endian image.
    UnsupportedEndianness,
    /// The identification version is not 1.
    UnsupportedIdentVersion,
    /// Not an executable (relocatable, shared and core files are rejected).
    NotExecutable,
    /// Not an ARM image.
    UnsupportedMachine,
    /// The file version field is not 1.
    UnsupportedVersion,
    /// The program-header table offset is zero.
    MissingProgramHeaders,
    /// The declared header size is smaller than the structure read.
    HeaderTooSmall,
    /// The program-header entry size is zero.
    ZeroSizeProgramHeaders,
    /// The program-header table has no entries.
    EmptyProgramHeaders,
    /// A segment occupies more file bytes than its reserved memory region.
    SegmentSizeMismatch,
    /// A dynamic segment was found; dynamic linking is unsupported.
    DynamicUnsupported,
    /// A segment's address range runs past the fixed page table.
    AddressSpaceExhausted,
}

/// The little-endian 16-bit value at offset `off` of `s`.
pub open spec fn le16(s: Seq<u8>, off: int) -> u16 {
    (s[off] + 0x100 * s[off + 1]) as u16
}

/// The little-endian 32-bit value at offset `off` of `s`.
pub open spec fn le32(s: Seq<u8>, off: int) -> u32 {
    (s[off] + 0x100 * s[off + 1] + 0x1_0000 * s[off + 2] + 0x100_0000 * s[off + 3]) as u32
}

fn read_le16(src: &Vec<u8>, off: usize) -> (r: u16)
    requires
        off + 2 <= src@.len(),
    ensures
        r == le16(src@, off as int),
{
    proof {
        assert(src@.len() == src.len());
    }
    src[off] as u16 + src[off + 1] as u16 * 0x100
}

fn read_le32(src: &Vec<u8>, off: usize) -> (r: u32)
    requires
        off + 4 <= src@.len(),
    ensures
        r == le32(src@, off as int),
{
    proof {
        assert(src@.len() == src.len());
    }
    src[off] as u32 + src[off + 1] as u32 * 0x100 + src[off + 2] as u32 * 0x1_0000 + src[off
        + 3] as u32 * 0x100_0000
}

/// The fixed-layout ELF header, 52 bytes in its 32-bit little-endian form.
/// Transient: constructed, validated and discarded during loading.
pub struct Ehdr {
    pub e_ident: Vec<u8>,
    pub e_type: u16,
    pub e_machine: u16,
    pub e_version: u32,
    pub e_entry: Addr,
    pub e_phoff: Off,
    pub e_shoff: Off,
    pub e_flags: u32,
    pub e_ehsize: u16,
    pub e_phentsize: u16,
    pub e_phnum: u16,
    pub e_shentsize: u16,
    pub e_shnum: u16,
    pub e_shstrndx: u16,
}

/// The number of bytes of the ELF header structure as read.
pub const EHDR_SIZE: usize = 52;

impl Ehdr {
    /// The header's fields are the decoding of the image's first 52 bytes.
    pub open spec fn matches(self, s: Seq<u8>) -> bool {
        &&& self.e_ident@ == s.subrange(0, 16)
        &&& self.e_type == le16(s, 16)
        &&& self.e_machine == le16(s, 18)
        &&& self.e_version == le32(s, 20)
        &&& self.e_entry == le32(s, 24)
        &&& self.e_phoff == le32(s, 28)
        &&& self.e_shoff == le32(s, 32)
        &&& self.e_flags == le32(s, 36)
        &&& self.e_ehsize == le16(s, 40)
        &&& self.e_phentsize == le16(s, 42)
        &&& self.e_phnum == le16(s, 44)
        &&& self.e_shentsize == le16(s, 46)
        &&& self.e_shnum == le16(s, 48)
        &&& self.e_shstrndx == le16(s, 50)
    }
}

/// The exact header-validation verdict for an image: the first failed check
/// in validation order, or nothing when the header is sound.
pub open spec fn ehdr_err(s: Seq<u8>) -> Option<LoadError> {
    if s.len() < 16 {
        Some(LoadError::Truncated)
    } else if !(s[0] == 0x7F && s[1] == 0x45 && s[2] == 0x4C && s[3] == 0x46) {
        Some(LoadError::BadMagic)
    } else if s[4] != 1 {
        Some(LoadError::UnsupportedClass)
    } else if s[5] != 1 {
        Some(LoadError::UnsupportedEndianness)
    } else if s[6] != 1 {
        Some(LoadError::UnsupportedIdentVersion)
    } else if s.len() < EHDR_SIZE {
        Some(LoadError::Truncated)
    } else if le16(s, 16) != 2 {
        Some(LoadError::NotExecutable)
    } else if le16(s, 18) != 40 {
        Some(LoadError::UnsupportedMachine)
    } else if le32(s, 20) != 1 {
        Some(LoadError::UnsupportedVersion)
    } else if le32(s, 28) == 0 {
        Some(LoadError::MissingProgramHeaders)
    } else if le16(s, 40) < EHDR_SIZE {
        Some(LoadError::HeaderTooSmall)
    } else if le16(s, 42) == 0 {
        Some(LoadError::ZeroSizeProgramHeaders)
    } else if le16(s, 44) == 0 {
        Some(LoadError::EmptyProgramHeaders)
    } else {
        None
    }
}

/// Read and validate the ELF header of `elf`.
pub fn parse_ehdr(elf: &Vec<u8>) -> (r: Result<Ehdr, LoadError>)
    ensures
        r is Ok <==> ehdr_err(elf@) is None,
        r matches Ok(h) ==> h.matches(elf@),
        r matches Err(e) ==> ehdr_err(elf@) == Some(e),
{
    if elf.len() < 16 {
        return Err(LoadError::Truncated);
    }
    if !(elf[0] == 0x7F && elf[1] == 0x45 && elf[2] == 0x4C && elf[3] == 0x46) {
        return Err(LoadError::BadMagic);
    }
    if elf[4] != 1 {
        return Err(LoadError::UnsupportedClass);
    }
    if elf[5] != 1 {
        return Err(LoadError::UnsupportedEndianness);
    }
    if elf[6] != 1 {
        return Err(LoadError::UnsupportedIdentVersion);
    }
    if elf.len() < EHDR_SIZE {
        return Err(LoadError::Truncated);
    }
    let mut e_ident: Vec<u8> = Vec::new();
    let mut i: usize = 0;
    while i < 16
        invariant
            e_ident@.len() == i,
            i <= 16,
            elf@.len() >= 16,
            forall|t: int| 0 <= t < i ==> #[trigger] e_ident@[t] == elf@[t],
        decreases 16 - i,
    {
        e_ident.push(elf[i]);
        i += 1;
    }
    let h = Ehdr {
        e_ident,
        e_type: read_le16(elf, 16),
        e_machine: read_le16(elf, 18),
        e_version: read_le32(elf, 20),
        e_entry: read_le32(elf, 24),
        e_phoff: read_le32(elf, 28),
        e_shoff: read_le32(elf, 32),
        e_flags: read_le32(elf, 36),
        e_ehsize: read_le16(elf, 40),
        e_phentsize: read_le16(elf, 42),
        e_phnum: read_le16(elf, 44),
        e_shentsize: read_le16(elf, 46),
        e_shnum: read_le16(elf, 48),
        e_shstrndx: read_le16(elf, 50),
    };
    proof {
        assert(h.e_ident@ =~= elf@.subrange(0, 16));
    }
    if h.e_type != 2 {
        return Err(LoadError::NotExecutable);
    }
    if h.e_machine != 40 {
        return Err(LoadError::UnsupportedMachine);
    }
    if h.e_version != 1 {
        return Err(LoadError::UnsupportedVersion);
    }
    if h.e_phoff == 0 {
        return Err(LoadError::MissingProgramHeaders);
    }
    if (h.e_ehsize as usize) < EHDR_SIZE {
        return Err(LoadError::HeaderTooSmall);
    }
    if h.e_phentsize == 0 {
        return Err(LoadError::ZeroSizeProgramHeaders);
    }
    if h.e_phnum == 0 {
        return Err(LoadError::EmptyProgramHeaders);
    }
    Ok(h)
}

/// One program-header record, 32 bytes in its 32-bit little-endian form.
/// Transient, like `Ehdr`.
#[derive(Clone, Copy, PartialEq, Eq, Structural, Debug)]
pub struct Phdr {
    pub p_type: u32,
    pub p_offset: Off,
    pub p_vaddr: Addr,
    pub p_paddr: Addr,
    pub p_filesz: u32,
    pub p_memsz: u32,
    pub p_flags: u32,
    pub p_align: u32,
}

/// The number of bytes of the program-header structure as read.
pub const PHDR_SIZE: usize = 32;

/// The 32 bytes a program-header record is decoded from: `n` bytes of the
/// image starting at `off`, zero-padded when the declared entry size is
/// smaller than the structure.
pub open spec fn phdr_bytes(s: Seq<u8>, off: int, n: int) -> Seq<u8> {
    Seq::new(
        PHDR_SIZE as nat,
        |j: int|
            if j < n {
                s[off + j]
            } else {
                0u8
            },
    )
}

impl Phdr {
    /// The record's fields are the decoding of the padded 32 bytes `b`.
    pub open spec fn matches(self, b: Seq<u8>) -> bool {
        &&& self.p_type == le32(b, 0)
        &&& self.p_offset == le32(b, 4)
        &&& self.p_vaddr == le32(b, 8)
        &&& self.p_paddr == le32(b, 12)
        &&& self.p_filesz == le32(b, 16)
        &&& self.p_memsz == le32(b, 20)
        &&& self.p_flags == le32(b, 24)
        &&& self.p_align == le32(b, 28)
    }
}

/// Read one program-header record at image offset `off`, taking the lesser
/// of the declared entry size and the structure's own size and padding the
/// rest with zeros, so that larger future entries are tolerated.
pub fn parse_phdr(elf: &Vec<u8>, off: u64, entsize: u16) -> (r: Result<Phdr, LoadError>)
    ensures
        ({
            let n = if entsize < PHDR_SIZE {
                entsize as int
            } else {
                PHDR_SIZE as int
            };
            &&& (r is Ok <==> off + n <= elf@.len())
            &&& (r matches Ok(p) ==> p.matches(phdr_bytes(elf@, off as int, n)))
            &&& (r matches Err(e) ==> e == LoadError::Truncated)
        }),
{
    let n: usize = if (entsize as usize) < PHDR_SIZE {
        entsize as usize
    } else {
        PHDR_SIZE
    };
    if off > elf.len() as u64 || (n as u64) > elf.len() as u64 - off {
        return Err(LoadError::Truncated);
    }
    let off_u: usize = off as usize;
    let mut buf: Vec<u8> = Vec::new();
    let mut j: usize = 0;
    while j < PHDR_SIZE
        invariant
            buf@.len() == j,
            j <= PHDR_SIZE,
            n <= PHDR_SIZE,
            off_u == off,
            off_u + n <= elf@.len(),
            elf@.len() <= usize::MAX,
            forall|t: int|
                0 <= t < j ==> #[trigger] buf@[t] == (if t < n {
                    elf@[off + t]
                } else {
                    0u8
                }),
        decreases PHDR_SIZE - j,
    {
        if j < n {
            buf.push(elf[off_u + j]);
        } else {
            buf.push(0);
        }
        j += 1;
    }
    proof {
        assert(buf@ =~= phdr_bytes(
            elf@,
            off as int,
            if entsize < PHDR_SIZE {
                entsize as int
            } else {
                PHDR_SIZE as int
            },
        ));
    }
    Ok(
        Phdr {
            p_type: read_le32(&buf, 0),
            p_offset: read_le32(&buf, 4),
            p_vaddr: read_le32(&buf, 8),
            p_paddr: read_le32(&buf, 12),
            p_filesz: read_le32(&buf, 16),
            p_memsz: read_le32(&buf, 20),
            p_flags: read_le32(&buf, 24),
            p_align: read_le32(&buf, 28),
        },
    )
}

/// Image offset of program-header record `i`.
pub open spec fn seg_off(s: Seq<u8>, i: int) -> int {
    le32(s, 28) + i * le16(s, 42)
}

/// How many bytes of a program-header record are read from the image.
pub open spec fn seg_n(s: Seq<u8>) -> int {
    if le16(s, 42) < PHDR_SIZE {
        le16(s, 42) as int
    } else {
        PHDR_SIZE as int
    }
}

/// The padded 32 bytes of program-header record `i`.
pub open spec fn seg_bytes(s: Seq<u8>, i: int) -> Seq<u8> {
    phdr_bytes(s, seg_off(s, i), seg_n(s))
}

pub open spec fn seg_type(s: Seq<u8>, i: int) -> u32 {
    le32(seg_bytes(s, i), 0)
}

pub open spec fn seg_fileoff(s: Seq<u8>, i: int) -> int {
    le32(seg_bytes(s, i), 4) as int
}

pub open spec fn seg_vaddr(s: Seq<u8>, i: int) -> int {
    le32(seg_bytes(s, i), 8) as int
}

pub open spec fn seg_filesz(s: Seq<u8>, i: int) -> int {
    le32(seg_bytes(s, i), 16) as int
}

pub open spec fn seg_memsz(s: Seq<u8>, i: int) -> int {
    le32(seg_bytes(s, i), 20) as int
}

/// The page permissions derived from a loadable segment's flag bits:
/// execute is bit 0, write bit 1, read bit 2.
pub open spec fn seg_perm(s: Seq<u8>, i: int) -> MemoryFlags {
    (MemoryFlags {
        read: le32(seg_bytes(s, i), 24) & 4 != 0,
        write: le32(seg_bytes(s, i), 24) & 2 != 0,
        execute: le32(seg_bytes(s, i), 24) & 1 != 0,
    })
}

/// The verdict on program-header record `i`: the first failed check in
/// processing order, or nothing when the record is acceptable.
pub open spec fn seg_err(s: Seq<u8>, i: int) -> Option<LoadError> {
    if seg_off(s, i) + seg_n(s) > s.len() {
        Some(LoadError::Truncated)
    } else {
        let t = seg_type(s, i);
        if t == 1 {
            let va = seg_vaddr(s, i);
            let po = seg_fileoff(s, i);
            let fsz = seg_filesz(s, i);
            let msz = seg_memsz(s, i);
            if fsz > msz {
                Some(LoadError::SegmentSizeMismatch)
            } else if msz > fsz && va + msz > 0x1_0000_0000 {
                Some(LoadError::AddressSpaceExhausted)
            } else if fsz > 0 && va + fsz > 0x1_0000_0000 {
                Some(LoadError::AddressSpaceExhausted)
            } else if fsz > 0 && po + fsz > s.len() {
                Some(LoadError::Truncated)
            } else {
                None
            }
        } else if t == 2 {
            Some(LoadError::DynamicUnsupported)
        } else {
            None
        }
    }
}

/// The first `k` program-header records are all acceptable.
pub open spec fn segs_ok(s: Seq<u8>, k: int) -> bool {
    forall|j: int| 0 <= j < k ==> (#[trigger] seg_err(s, j)) is None
}

/// Whether loadable segment `i` copies a file byte to address `a`.
pub open spec fn seg_covers(s: Seq<u8>, i: int, a: int) -> bool {
    seg_type(s, i) == 1 && seg_vaddr(s, i) <= a < seg_vaddr(s, i) + seg_filesz(s, i)
}

/// The byte visible at address `a` after mapping the first `k` segments:
/// the copy of the last loadable segment covering `a`, or zero. Zero fill
/// marks pages but writes no bytes, so only copied file ranges appear.
pub open spec fn loaded_byte(s: Seq<u8>, k: int, a: int) -> u8
    decreases k,
{
    if k <= 0 {
        0
    } else if seg_covers(s, k - 1, a) {
        s[seg_fileoff(s, k - 1) + (a - seg_vaddr(s, k - 1))]
    } else {
        loaded_byte(s, k - 1, a)
    }
}

/// Whether loadable segment `i` marks page `p` with its permissions, through
/// its zero-fill range or its copied range.
pub open spec fn seg_marks(s: Seq<u8>, i: int, p: int) -> bool {
    seg_type(s, i) == 1 && {
        let va = seg_vaddr(s, i);
        let fsz = seg_filesz(s, i);
        let msz = seg_memsz(s, i);
        ||| (msz - fsz > 0 && (va + fsz) / (PAGE_SIZE as int) <= p <= (va + msz - 1) / (
        PAGE_SIZE as int))
        ||| (fsz > 0 && va / (PAGE_SIZE as int) <= p <= (va + fsz - 1) / (PAGE_SIZE as int))
    }
}

/// The permission flags of page `p` after mapping the first `k` segments.
pub open spec fn loaded_flags(s: Seq<u8>, k: int, p: int) -> MemoryFlags
    decreases k,
{
    if k <= 0 {
        MemoryFlags::spec_none()
    } else if seg_marks(s, k - 1, p) {
        loaded_flags(s, k - 1, p).spec_union(seg_perm(s, k - 1))
    } else {
        loaded_flags(s, k - 1, p)
    }
}

/// Load an ELF32 image: validate the header, walk the program-header table
/// mapping every loadable segment (zero-fill region first, file copy
/// second), and return the populated memory with the declared entry
/// address. An invalid image fails with a descriptive error and nothing is
/// returned of the partial load.
pub fn load(elf: &Vec<u8>) -> (r: Result<(Memory, u32), LoadError>)
    ensures
        ehdr_err(elf@) matches Some(e0) ==> r matches Err(e) && e == e0,
        ehdr_err(elf@) is None ==> {
            let num = le16(elf@, 44) as int;
            &&& (r is Ok <==> segs_ok(elf@, num))
            &&& (r matches Err(e) ==> exists|j: int|
                0 <= j < num && segs_ok(elf@, j) && #[trigger] seg_err(elf@, j) == Some(e))
            &&& (r matches Ok(p2) ==> p2.0.wf() && p2.1 == le32(elf@, 24) && (forall|a: int|
                0 <= a < 0x1_0000_0000 ==> #[trigger] p2.0.spec_byte(a) == loaded_byte(
                    elf@,
                    num,
                    a,
                )) && (forall|p: int|
                0 <= p < NUM_PAGES ==> #[trigger] p2.0.spec_flags(p) == loaded_flags(
                    elf@,
                    num,
                    p,
                )))
        },
{
    let ehdr = match parse_ehdr(elf) {
        Err(e) => {
            return Err(e);
        },
        Ok(h) => h,
    };
    let mut mem = Memory::new();
    proof {
        assert(elf@.len() == elf.len());
        assert forall|a: int| 0 <= a < 0x1_0000_0000 implies #[trigger] mem.spec_byte(a)
            == loaded_byte(elf@, 0, a) by {
            vstd::arithmetic::div_mod::lemma_div_is_ordered(a, 0xFFFF_FFFF, PAGE_SIZE as int);
            assert(!mem.spec_backed(a / (PAGE_SIZE as int)));
        };
    }
    let mut iph: u16 = 0;
    let num = ehdr.e_phnum;
    while iph < num
        invariant
            mem.wf(),
            iph <= num,
            ehdr_err(elf@) is None,
            ehdr.matches(elf@),
            num == ehdr.e_phnum,
            elf@.len() <= usize::MAX,
            segs_ok(elf@, iph as int),
            forall|a: int|
                0 <= a < 0x1_0000_0000 ==> #[trigger] mem.spec_byte(a) == loaded_byte(
                    elf@,
                    iph as int,
                    a,
                ),
            forall|p: int|
                0 <= p < NUM_PAGES ==> #[trigger] mem.spec_flags(p) == loaded_flags(
                    elf@,
                    iph as int,
                    p,
                ),
        decreases num - iph,
    {
        let ghost s = elf@;
        let ghost i = iph as int;
        proof {
            assert((iph as u64) * (ehdr.e_phentsize as u64) < 0x1_0000_0000u64) by (nonlinear_arith)
                requires
                    iph <= 0xFFFFu16,
                    ehdr.e_phentsize <= 0xFFFFu16,
            ;
        }
        let off: u64 = ehdr.e_phoff as u64 + (iph as u64) * (ehdr.e_phentsize as u64);
        proof {
            assert(off == seg_off(s, i));
        }
        let phdr = match parse_phdr(elf, off, ehdr.e_phentsize) {
            Err(e) => {
                proof {
                    assert(seg_err(s, i) == Some(LoadError::Truncated));
                }
                return Err(e);
            },
            Ok(p) => p,
        };
        proof {
            assert(seg_bytes(s, i) =~= phdr_bytes(s, off as int, seg_n(s)));
            assert(phdr.p_type == seg_type(s, i));
            assert(phdr.p_offset == seg_fileoff(s, i));
            assert(phdr.p_vaddr == seg_vaddr(s, i));
            assert(phdr.p_filesz == seg_filesz(s, i));
            assert(phdr.p_memsz == seg_memsz(s, i));
        }
        if phdr.p_type == 1 {
            if phdr.p_filesz > phdr.p_memsz {
                return Err(LoadError::SegmentSizeMismatch);
            }
            let zero_size: u32 = phdr.p_memsz - phdr.p_filesz;
            let perm = MemoryFlags {
                read: phdr.p_flags & 4 != 0,
                write: phdr.p_flags & 2 != 0,
                execute: phdr.p_flags & 1 != 0,
            };
            proof {
                assert(phdr.p_flags == le32(seg_bytes(s, i), 24));
                assert(perm == seg_perm(s, i));
            }
            let ghost m0 = mem;
            if zero_size > 0 {
                if phdr.p_vaddr as u64 + phdr.p_memsz as u64 > 0x1_0000_0000u64 {
                    return Err(LoadError::AddressSpaceExhausted);
                }
                let zb: u32 = (phdr.p_vaddr as u64 + phdr.p_filesz as u64) as u32;
                match mem.init_zero(zb, perm, zero_size) {
                    Ok(()) => {},
                    Err(_) => {
                        proof {
                            assert(false);
                        }
                        return Err(LoadError::AddressSpaceExhausted);
                    },
                }
            }
            let ghost m1 = mem;
            proof {
                crate::mem::lemma_untouched_data_reads_same(m0, m1);
            }
            if phdr.p_filesz > 0 {
                if phdr.p_vaddr as u64 + phdr.p_filesz as u64 > 0x1_0000_0000u64 {
                    return Err(LoadError::AddressSpaceExhausted);
                }
                match mem.init_copy(
                    phdr.p_vaddr,
                    perm,
                    elf,
                    phdr.p_offset as u64,
                    phdr.p_filesz,
                ) {
                    Ok(()) => {},
                    Err(e) => {
                        proof {
                            assert(e == MemError::SourceOutOfBounds);
                            assert(seg_err(s, i) == Some(LoadError::Truncated));
                        }
                        return Err(LoadError::Truncated);
                    },
                }
            }
            proof {
                let psz = PAGE_SIZE as int;
                let va = seg_vaddr(s, i);
                let fsz = seg_filesz(s, i);
                let msz = seg_memsz(s, i);
                assert(seg_err(s, i) is None);
                assert forall|a: int| 0 <= a < 0x1_0000_0000 implies #[trigger] mem.spec_byte(a)
                    == loaded_byte(s, i + 1, a) by {
                    if seg_covers(s, i, a) {
                        assert(mem.spec_byte(va + (a - va)) == s[seg_fileoff(s, i) + (a - va)]);
                        assert(mem.spec_byte(a) == s[seg_fileoff(s, i) + (a - va)]);
                    } else {
                        assert(mem.spec_byte(a) == m1.spec_byte(a));
                        assert(m1.spec_byte(a) == m0.spec_byte(a));
                    }
                };
                assert forall|p: int| 0 <= p < NUM_PAGES implies #[trigger] mem.spec_flags(p)
                    == loaded_flags(s, i + 1, p) by {
                    let zt = fsz < msz && Memory::touches(
                        ((va + fsz) as u32),
                        ((msz - fsz) as u32),
                        p,
                    );
                    let ct = fsz > 0 && Memory::touches((va as u32), (fsz as u32), p);
                    assert(zt ==> m1.spec_flags(p) == m0.spec_flags(p).spec_union(perm));
                    assert(!zt ==> m1.spec_flags(p) == m0.spec_flags(p));
                    assert(ct ==> mem.spec_flags(p) == m1.spec_flags(p).spec_union(perm));
                    assert(!ct ==> mem.spec_flags(p) == m1.spec_flags(p));
                    assert(seg_marks(s, i, p) <==> (zt || ct));
                };
            }
        } else if phdr.p_type == 2 {
            return Err(LoadError::DynamicUnsupported);
        } else {
            proof {
                assert(seg_err(s, i) is None);
                assert forall|a: int| 0 <= a < 0x1_0000_0000 implies #[trigger] mem.spec_byte(a)
                    == loaded_byte(s, i + 1, a) by {
                    assert(!seg_covers(s, i, a));
                };
                assert forall|p: int| 0 <= p < NUM_PAGES implies #[trigger] mem.spec_flags(p)
                    == loaded_flags(s, i + 1, p) by {
                    assert(!seg_marks(s, i, p));
                };
            }
        }
        proof {
            assert forall|j: int| 0 <= j < i + 1 implies (#[trigger] seg_err(s, j)) is None by {
                if j < i {
                    assert(seg_err(s, j) is None);
                }
            };
        }
        iph += 1;
    }
    Ok((mem, ehdr.e_entry))
}

} // verus!

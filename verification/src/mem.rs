//! Paged memory: a 4 GiB simulated address space made of fixed-size pages,
//! each carrying its own permission flags and lazily allocated backing bytes.

use vstd::prelude::*;

verus! {

/// Number of bytes in one page of the simulated address space.
pub const PAGE_SIZE: usize = 1024;

/// Number of pages covering the full 32-bit address space.
pub const NUM_PAGES: usize = 0x40_0000;

/// Per-page access permissions: a set of read/write/execute capabilities.
#[derive(Clone, Copy, PartialEq, Eq, Structural, Debug)]
pub struct MemoryFlags {
    pub read: bool,
    pub write: bool,
    pub execute: bool,
}

impl MemoryFlags {
    /// The empty permission set.
    pub open spec fn spec_none() -> MemoryFlags {
        (MemoryFlags { read: false, write: false, execute: false })
    }

    pub fn none() -> (r: MemoryFlags)
        ensures
            r == MemoryFlags::spec_none(),
    {
        MemoryFlags { read: false, write: false, execute: false }
    }

    /// `self` grants every capability that `other` asks for.
    pub open spec fn spec_contains(self, other: MemoryFlags) -> bool {
        (other.read ==> self.read) && (other.write ==> self.write) && (other.execute
            ==> self.execute)
    }

    pub fn contains(self, other: MemoryFlags) -> (r: bool)
        ensures
            r == self.spec_contains(other),
    {
        (!other.read || self.read) && (!other.write || self.write) && (!other.execute
            || self.execute)
    }

    /// The union of two permission sets.
    pub open spec fn spec_union(self, other: MemoryFlags) -> MemoryFlags {
        (MemoryFlags {
            read: self.read || other.read,
            write: self.write || other.write,
            execute: self.execute || other.execute,
        })
    }

    pub fn union(self, other: MemoryFlags) -> (r: MemoryFlags)
        ensures
            r == self.spec_union(other),
    {
        MemoryFlags {
            read: self.read || other.read,
            write: self.write || other.write,
            execute: self.execute || other.execute,
        }
    }
}

/// An error from an initialization operation.
#[derive(Clone, Copy, PartialEq, Eq, Structural, Debug)]
pub enum MemError {
    /// The initialization range runs past the end of the page table.
    AddressSpaceExhausted,
    /// The source does not hold the requested byte range.
    SourceOutOfBounds,
}

/// A permission fault: a touched page lacks a requested capability.
/// Faults are unrecoverable; the run loop aborts the emulated process.
#[derive(Clone, Copy, PartialEq, Eq, Structural, Debug)]
pub struct MemFault {
    /// Base address of the first offending page.
    pub page_base: u32,
}

/// One fixed-size unit of the address space. A page with no backing
/// storage reads as all zero bytes without allocating.
pub struct Page {
    pub data: Option<Vec<u8>>,
    pub flags: MemoryFlags,
}

impl Page {
    /// Backing storage, if present, holds exactly one page of bytes.
    pub open spec fn wf(self) -> bool {
        self.data matches Some(d) ==> d@.len() == PAGE_SIZE
    }

    /// Whether backing storage has been allocated.
    pub open spec fn spec_backed(self) -> bool {
        self.data is Some
    }

    /// The byte at in-page offset `j`: from the backing storage when
    /// allocated, zero otherwise.
    pub open spec fn spec_byte(self, j: int) -> u8 {
        match self.data {
            Some(d) => d@[j],
            None => 0,
        }
    }

    pub fn new() -> (r: Page)
        ensures
            r.wf(),
            !r.spec_backed(),
            r.flags == MemoryFlags::spec_none(),
    {
        Page { data: None, flags: MemoryFlags::none() }
    }

    /// The byte at in-page offset `j`.
    pub fn byte_at(&self, j: usize) -> (r: u8)
        requires
            self.wf(),
            j < PAGE_SIZE,
        ensures
            r == self.spec_byte(j as int),
    {
        match &self.data {
            Some(d) => d[j],
            None => 0,
        }
    }
}

/// The whole simulated address space: one page per `PAGE_SIZE`-byte unit,
/// `NUM_PAGES` pages in all.
pub struct Memory {
    pub pages: Vec<Page>,
}

impl Memory {
    pub open spec fn wf(self) -> bool {
        &&& self.pages@.len() == NUM_PAGES
        &&& forall|p: int| 0 <= p < NUM_PAGES ==> (#[trigger] self.pages@[p]).wf()
    }

    /// Permission flags of page `p`.
    pub open spec fn spec_flags(self, p: int) -> MemoryFlags {
        self.pages@[p].flags
    }

    /// Whether page `p` has backing storage allocated.
    pub open spec fn spec_backed(self, p: int) -> bool {
        self.pages@[p].spec_backed()
    }

    /// The byte visible at address `a`.
    pub open spec fn spec_byte(self, a: int) -> u8 {
        self.pages@[a / (PAGE_SIZE as int)].spec_byte(a % (PAGE_SIZE as int))
    }

    /// A fresh address space: every page unmapped (no flags) and unbacked.
    pub fn new() -> (r: Memory)
        ensures
            r.wf(),
            forall|p: int|
                0 <= p < NUM_PAGES ==> #[trigger] r.spec_flags(p) == MemoryFlags::spec_none(),
            forall|p: int| 0 <= p < NUM_PAGES ==> !(#[trigger] r.spec_backed(p)),
    {
        let mut pages: Vec<Page> = Vec::new();
        while pages.len() < NUM_PAGES
            invariant
                pages@.len() <= NUM_PAGES,
                forall|p: int|
                    0 <= p < pages@.len() ==> {
                        &&& (#[trigger] pages@[p]).wf()
                        &&& !pages@[p].spec_backed()
                        &&& pages@[p].flags == MemoryFlags::spec_none()
                    },
            decreases NUM_PAGES - pages@.len(),
        {
            pages.push(Page::new());
        }
        Memory { pages }
    }

    /// Whether the byte range `[base, base + len)` touches page `p`.
    pub open spec fn touches(base: u32, len: u32, p: int) -> bool {
        len > 0 && base as int / (PAGE_SIZE as int) <= p <= (base as int + len as int - 1) / (
        PAGE_SIZE as int)
    }

    /// Mark one page with the given flags (or'd into its existing flags),
    /// leaving its backing storage alone. Fails when the page index lies
    /// beyond the fixed page table.
    fn init_page(&mut self, page_idx: u64, flags: MemoryFlags) -> (r: Result<(), MemError>)
        requires
            old(self).wf(),
        ensures
            final(self).wf(),
            r is Ok <==> page_idx < NUM_PAGES,
            r matches Err(e) ==> e == MemError::AddressSpaceExhausted && *final(self) == *old(self),
            r is Ok ==> final(self).pages@ == old(self).pages@.update(
                page_idx as int,
                (Page {
                    data: old(self).pages@[page_idx as int].data,
                    flags: old(self).spec_flags(page_idx as int).spec_union(flags),
                }),
            ),
    {
        if page_idx >= NUM_PAGES as u64 {
            return Err(MemError::AddressSpaceExhausted);
        }
        let i = page_idx as usize;
        let old_flags = self.pages[i].flags;
        self.pages[i].flags = old_flags.union(flags);
        Ok(())
    }

    /// Mark every page touched by `[base, base + zero_bytes)` with the given
    /// flags, allocating nothing: the marked pages keep reading as zero until
    /// separately written. On address-space exhaustion, the pages that fit
    /// keep the new flags and the rest of the range is abandoned.
    pub fn init_zero(&mut self, base: u32, flags: MemoryFlags, zero_bytes: u32) -> (r: Result<
        (),
        MemError,
    >)
        requires
            old(self).wf(),
        ensures
            final(self).wf(),
            r is Ok <==> (zero_bytes == 0 || base as int + zero_bytes as int <= 0x1_0000_0000),
            r matches Err(e) ==> e == MemError::AddressSpaceExhausted,
            forall|p: int|
                0 <= p < NUM_PAGES ==> (#[trigger] final(self).pages@[p]).data
                    == old(self).pages@[p].data,
            forall|p: int|
                0 <= p < NUM_PAGES ==> #[trigger] final(self).spec_flags(p) == (if Self::touches(
                    base,
                    zero_bytes,
                    p,
                ) {
                    old(self).spec_flags(p).spec_union(flags)
                } else {
                    old(self).spec_flags(p)
                }),
    {
        if zero_bytes == 0 {
            return Ok(());
        }
        let first: u64 = (base / (PAGE_SIZE as u32)) as u64;
        let last: u64 = ((base as u64 + zero_bytes as u64 - 1) / (PAGE_SIZE as u64));
        proof {
            vstd::arithmetic::div_mod::lemma_div_is_ordered(
                base as int,
                base as int + zero_bytes as int - 1,
                PAGE_SIZE as int,
            );
        }
        let mut k: u64 = 0;
        while k <= last - first
            invariant
                self.wf(),
                old(self).wf(),
                first == base as int / (PAGE_SIZE as int),
                last == (base as int + zero_bytes as int - 1) / (PAGE_SIZE as int),
                zero_bytes > 0,
                first <= last,
                k <= last - first + 1,
                first + k <= NUM_PAGES,
                forall|p: int|
                    0 <= p < NUM_PAGES ==> (#[trigger] self.pages@[p]).data
                        == old(self).pages@[p].data,
                forall|p: int|
                    0 <= p < NUM_PAGES ==> #[trigger] self.spec_flags(p) == (if first <= p < first
                        + k {
                        old(self).spec_flags(p).spec_union(flags)
                    } else {
                        old(self).spec_flags(p)
                    }),
            decreases last - first - k + 1,
        {
            let ghost prev = *self;
            match self.init_page(first + k, flags) {
                Ok(()) => {},
                Err(e) => {
                    return Err(e);
                },
            }
            proof {
                let idx = first as int + k as int;
                assert forall|p: int| 0 <= p < NUM_PAGES implies #[trigger] self.spec_flags(p) == (
                if first <= p < first + k + 1 {
                    old(self).spec_flags(p).spec_union(flags)
                } else {
                    old(self).spec_flags(p)
                }) by {
                    if p == idx {
                        assert(prev.spec_flags(p) == old(self).spec_flags(p));
                    } else {
                        assert(self.pages@[p] == prev.pages@[p]);
                        assert(self.spec_flags(p) == prev.spec_flags(p));
                    }
                };
            }
            k = k + 1;
        }
        assert(base as int + zero_bytes as int <= 0x1_0000_0000) by {
            assert(last < NUM_PAGES);
            assert((base as int + zero_bytes as int - 1) / (PAGE_SIZE as int) < NUM_PAGES);
        };
        Ok(())
    }

    /// Mark every page touched by `[base, base + io_bytes)` with the given
    /// flags, allocate backing storage for each, and copy `io_bytes` bytes of
    /// `source` starting at `source_offset` into the range, splitting the copy
    /// across page boundaries as needed. Bytes of a touched page outside the
    /// copied range keep their previous visible value.
    pub fn init_copy(
        &mut self,
        base: u32,
        flags: MemoryFlags,
        source: &Vec<u8>,
        source_offset: u64,
        io_bytes: u32,
    ) -> (r: Result<(), MemError>)
        requires
            old(self).wf(),
        ensures
            final(self).wf(),
            r is Ok <==> (io_bytes == 0 || (base as int + io_bytes as int <= 0x1_0000_0000
                && source_offset as int + io_bytes as int <= source@.len())),
            r matches Err(e) ==> *final(self) == *old(self) && e == (if base as int
                + io_bytes as int > 0x1_0000_0000 {
                MemError::AddressSpaceExhausted
            } else {
                MemError::SourceOutOfBounds
            }),
            io_bytes == 0 ==> *final(self) == *old(self),
            r is Ok ==> forall|i: int|
                0 <= i < io_bytes ==> #[trigger] final(self).spec_byte(base as int + i)
                    == source@[source_offset as int + i],
            r is Ok ==> forall|a: int|
                0 <= a < 0x1_0000_0000 && !(base <= a < base as int + io_bytes as int)
                    ==> #[trigger] final(self).spec_byte(a) == old(self).spec_byte(a),
            r is Ok ==> forall|p: int|
                0 <= p < NUM_PAGES && Self::touches(base, io_bytes, p)
                    ==> #[trigger] final(self).spec_flags(p) == old(self).spec_flags(
                    p,
                ).spec_union(flags) && final(self).spec_backed(p),
            r is Ok ==> forall|p: int|
                0 <= p < NUM_PAGES && !Self::touches(base, io_bytes, p)
                    ==> #[trigger] final(self).pages@[p] == old(self).pages@[p],
    {
        if io_bytes == 0 {
            return Ok(());
        }
        if base as u64 + io_bytes as u64 > 0x1_0000_0000u64 {
            return Err(MemError::AddressSpaceExhausted);
        }
        if source_offset > source.len() as u64 || io_bytes as u64 > source.len() as u64
            - source_offset {
            return Err(MemError::SourceOutOfBounds);
        }
        let mut copied: u32 = 0;
        while copied < io_bytes
            invariant
                self.wf(),
                old(self).wf(),
                0 < io_bytes,
                copied <= io_bytes,
                base as int + io_bytes as int <= 0x1_0000_0000,
                source_offset as int + io_bytes as int <= source@.len(),
                source@.len() <= usize::MAX,
                copied == 0 || (base as int + copied as int) % (PAGE_SIZE as int) == 0 || copied
                    == io_bytes,
                forall|i: int|
                    0 <= i < copied ==> #[trigger] self.spec_byte(base as int + i)
                        == source@[source_offset as int + i],
                forall|a: int|
                    0 <= a < 0x1_0000_0000 && !(base <= a < base as int + copied as int)
                        ==> #[trigger] self.spec_byte(a) == old(self).spec_byte(a),
                forall|p: int|
                    0 <= p < NUM_PAGES && Self::touches(base, copied, p) ==> #[trigger] self.spec_flags(
                        p,
                    ) == old(self).spec_flags(p).spec_union(flags) && self.spec_backed(p),
                forall|p: int|
                    0 <= p < NUM_PAGES && !Self::touches(base, copied, p)
                        ==> #[trigger] self.pages@[p] == old(self).pages@[p],
            decreases io_bytes - copied,
        {
            let addr: u32 = base + copied;
            let p: usize = (addr / (PAGE_SIZE as u32)) as usize;
            let in_off: usize = (addr % (PAGE_SIZE as u32)) as usize;
            proof {
                vstd::arithmetic::div_mod::lemma_fundamental_div_mod(
                    addr as int,
                    PAGE_SIZE as int,
                );
            }
            let rem_page: usize = PAGE_SIZE - in_off;
            let rem_total: u32 = io_bytes - copied;
            let chunk: usize = if (rem_total as u64) <= (rem_page as u64) {
                rem_total as usize
            } else {
                rem_page
            };
            // the current page has not been touched by the bytes already copied
            proof {
                if copied > 0 {
                    vstd::arithmetic::div_mod::lemma_fundamental_div_mod_converse(
                        addr as int - 1,
                        PAGE_SIZE as int,
                        p as int - 1,
                        PAGE_SIZE as int - 1,
                    );
                }
                vstd::arithmetic::div_mod::lemma_div_is_ordered(
                    base as int,
                    addr as int,
                    PAGE_SIZE as int,
                );
                assert(!Self::touches(base, copied, p as int));
            }
            let mut nd: Vec<u8> = Vec::new();
            let mut j: usize = 0;
            while j < PAGE_SIZE
                invariant
                    nd@.len() == j,
                    j <= PAGE_SIZE,
                    self.wf(),
                    p < NUM_PAGES,
                    in_off + chunk <= PAGE_SIZE,
                    1 <= chunk,
                    copied as int + chunk as int <= io_bytes,
                    source_offset as int + io_bytes as int <= source@.len(),
                    source@.len() <= usize::MAX,
                    forall|t: int|
                        0 <= t < j ==> #[trigger] nd@[t] == (if in_off <= t < in_off + chunk {
                            source@[source_offset as int + copied as int + (t - in_off)]
                        } else {
                            self.pages@[p as int].spec_byte(t)
                        }),
                decreases PAGE_SIZE - j,
            {
                let b: u8 = if j >= in_off && j < in_off + chunk {
                    let si: u64 = source_offset + copied as u64 + (j - in_off) as u64;
                    assert(si <= usize::MAX);
                    source[si as usize]
                } else {
                    self.pages[p].byte_at(j)
                };
                nd.push(b);
                j += 1;
            }
            let old_flags = self.pages[p].flags;
            let ghost prev = *self;
            let ghost copied0 = copied;
            self.pages[p] = Page { data: Some(nd), flags: old_flags.union(flags) };
            copied = copied + chunk as u32;
            proof {
                let psz = PAGE_SIZE as int;
                assert(copied == copied0 + chunk);
                // every address of the freshly written chunk lands in page p
                assert forall|i: int| copied0 <= i < copied implies #[trigger] self.spec_byte(
                    base as int + i,
                ) == source@[source_offset as int + i] by {
                    let t = in_off as int + (i - copied0 as int);
                    vstd::arithmetic::div_mod::lemma_fundamental_div_mod_converse(
                        base as int + i,
                        psz,
                        p as int,
                        t,
                    );
                };
                assert forall|i: int| 0 <= i < copied0 implies #[trigger] self.spec_byte(
                    base as int + i,
                ) == source@[source_offset as int + i] by {
                    vstd::arithmetic::div_mod::lemma_div_is_ordered(
                        base as int + i,
                        addr as int - 1,
                        psz,
                    );
                    assert((base as int + i) / psz != p as int);
                    assert(self.spec_byte(base as int + i) == prev.spec_byte(base as int + i));
                };
                assert forall|a: int|
                    0 <= a < 0x1_0000_0000 && !(base <= a < base as int + copied as int)
                        implies #[trigger] self.spec_byte(a) == old(self).spec_byte(a) by {
                    if a / psz == p as int {
                        vstd::arithmetic::div_mod::lemma_fundamental_div_mod(a, psz);
                        let t = a % psz;
                        assert(a == p as int * psz + t);
                        assert(addr == p as int * psz + in_off);
                        assert(!(in_off <= t < in_off + chunk));
                        assert(self.spec_byte(a) == prev.spec_byte(a));
                    } else {
                        assert(self.pages@[a / psz] == prev.pages@[a / psz]);
                        assert(self.spec_byte(a) == prev.spec_byte(a));
                    }
                };
                // the touched-page range grows by exactly page p
                vstd::arithmetic::div_mod::lemma_fundamental_div_mod_converse(
                    base as int + copied as int - 1,
                    psz,
                    p as int,
                    in_off as int + chunk as int - 1,
                );
                assert forall|q: int|
                    0 <= q < NUM_PAGES && Self::touches(base, copied, q)
                        implies #[trigger] self.spec_flags(q) == old(self).spec_flags(
                        q,
                    ).spec_union(flags) && self.spec_backed(q) by {
                    if q == p as int {
                        assert(prev.pages@[q] == old(self).pages@[q]);
                    } else {
                        assert(Self::touches(base, copied0, q));
                        assert(self.pages@[q] == prev.pages@[q]);
                        assert(prev.spec_flags(q) == old(self).spec_flags(q).spec_union(flags));
                        assert(prev.spec_backed(q));
                    }
                };
                assert forall|q: int|
                    0 <= q < NUM_PAGES && !Self::touches(base, copied, q)
                        implies #[trigger] self.pages@[q] == old(self).pages@[q] by {
                    assert(q != p as int);
                    assert(!Self::touches(base, copied0, q));
                    assert(self.pages@[q] == prev.pages@[q]);
                };
            }
        }
        Ok(())
    }

    /// The single byte at `addr`, after checking that the page carries all of
    /// the requested capabilities.
    pub fn read_u8(&self, addr: u32, flags: MemoryFlags) -> (r: Result<u8, MemFault>)
        requires
            self.wf(),
        ensures
            r is Ok <==> self.spec_flags(addr as int / (PAGE_SIZE as int)).spec_contains(flags),
            r matches Ok(v) ==> v == self.spec_byte(addr as int),
            r matches Err(f) ==> f.page_base == (addr as int / (PAGE_SIZE as int)) * (
            PAGE_SIZE as int),
    {
        let p = (addr / (PAGE_SIZE as u32)) as usize;
        let j = (addr % (PAGE_SIZE as u32)) as usize;
        if self.pages[p].flags.contains(flags) {
            Ok(self.pages[p].byte_at(j))
        } else {
            Err(MemFault { page_base: (p as u32) * (PAGE_SIZE as u32) })
        }
    }

    /// The little-endian value of the `n` bytes visible at addresses
    /// `[a, a + n)`.
    pub open spec fn spec_le(self, a: int, n: nat) -> nat
        decreases n,
    {
        if n == 0 {
            0
        } else {
            (self.spec_byte(a) + 256 * self.spec_le(a + 1, (n - 1) as nat)) as nat
        }
    }

    /// Every page touched by `[addr, addr + len)` carries all of `flags`.
    pub open spec fn spec_allowed(self, addr: int, len: int, flags: MemoryFlags) -> bool {
        forall|i: int|
            0 <= i < len ==> #[trigger] self.spec_flags((addr + i) / (PAGE_SIZE as int)).spec_contains(
                flags,
            )
    }

    /// A read that may cross page boundaries: checks every touched page for
    /// the requested flags and gathers the visible bytes.
    fn read_unaligned(&self, addr: u32, flags: MemoryFlags, len: usize) -> (r: Result<
        Vec<u8>,
        MemFault,
    >)
        requires
            self.wf(),
            addr as int + len as int <= 0x1_0000_0000,
        ensures
            r is Ok <==> self.spec_allowed(addr as int, len as int, flags),
            r matches Ok(v) ==> v@.len() == len && forall|i: int|
                0 <= i < len ==> #[trigger] v@[i] == self.spec_byte(addr as int + i),
            r matches Err(f) ==> exists|i: int|
                0 <= i < len && f.page_base == ((addr as int + i) / (PAGE_SIZE as int)) * (
                PAGE_SIZE as int) && !(#[trigger] self.spec_flags(
                    (addr as int + i) / (PAGE_SIZE as int),
                )).spec_contains(flags) && (forall|t: int|
                    0 <= t < i ==> (#[trigger] self.spec_flags(
                        (addr as int + t) / (PAGE_SIZE as int),
                    )).spec_contains(flags)),
    {
        let mut out: Vec<u8> = Vec::new();
        let mut i: usize = 0;
        while i < len
            invariant
                self.wf(),
                i <= len,
                addr as int + len as int <= 0x1_0000_0000,
                out@.len() == i,
                forall|t: int| 0 <= t < i ==> #[trigger] out@[t] == self.spec_byte(addr as int + t),
                forall|t: int|
                    0 <= t < i ==> (#[trigger] self.spec_flags(
                        (addr as int + t) / (PAGE_SIZE as int),
                    )).spec_contains(flags),
            decreases len - i,
        {
            let a: u32 = addr + i as u32;
            let p = (a / (PAGE_SIZE as u32)) as usize;
            let j = (a % (PAGE_SIZE as u32)) as usize;
            proof {
                vstd::arithmetic::div_mod::lemma_div_is_ordered(
                    a as int,
                    0xFFFF_FFFF,
                    PAGE_SIZE as int,
                );
            }
            if !self.pages[p].flags.contains(flags) {
                proof {
                    let w = i as int;
                    assert(0 <= w < len && !self.spec_flags(
                        (addr as int + w) / (PAGE_SIZE as int),
                    ).spec_contains(flags));
                }
                return Err(MemFault { page_base: (p as u32) * (PAGE_SIZE as u32) });
            }
            out.push(self.pages[p].byte_at(j));
            i += 1;
        }
        Ok(out)
    }

    /// A read that must stay within one page: checks that single page for the
    /// requested flags and gathers the visible bytes.
    fn read_aligned(&self, addr: u32, flags: MemoryFlags, len: usize) -> (r: Result<
        Vec<u8>,
        MemFault,
    >)
        requires
            self.wf(),
            addr as int % (PAGE_SIZE as int) + len as int <= PAGE_SIZE,
        ensures
            r is Ok <==> self.spec_flags(addr as int / (PAGE_SIZE as int)).spec_contains(flags),
            r matches Ok(v) ==> v@.len() == len && forall|i: int|
                0 <= i < len ==> #[trigger] v@[i] == self.spec_byte(addr as int + i),
            r matches Err(f) ==> f.page_base == (addr as int / (PAGE_SIZE as int)) * (
            PAGE_SIZE as int),
    {
        let p = (addr / (PAGE_SIZE as u32)) as usize;
        let off = (addr % (PAGE_SIZE as u32)) as usize;
        if !self.pages[p].flags.contains(flags) {
            return Err(MemFault { page_base: (p as u32) * (PAGE_SIZE as u32) });
        }
        proof {
            vstd::arithmetic::div_mod::lemma_fundamental_div_mod(addr as int, PAGE_SIZE as int);
        }
        let mut out: Vec<u8> = Vec::new();
        let mut i: usize = 0;
        while i < len
            invariant
                self.wf(),
                i <= len,
                p < NUM_PAGES,
                p == addr as int / (PAGE_SIZE as int),
                off == addr as int % (PAGE_SIZE as int),
                off + len <= PAGE_SIZE,
                addr as int == p as int * (PAGE_SIZE as int) + off,
                out@.len() == i,
                forall|t: int| 0 <= t < i ==> #[trigger] out@[t] == self.spec_byte(addr as int + t),
            decreases len - i,
        {
            let b = self.pages[p].byte_at(off + i);
            proof {
                vstd::arithmetic::div_mod::lemma_fundamental_div_mod_converse(
                    addr as int + i,
                    PAGE_SIZE as int,
                    p as int,
                    off as int + i,
                );
            }
            out.push(b);
            i += 1;
        }
        Ok(out)
    }

    /// The bytes visible at `[addr, addr + dst_len)`, crossing page boundaries
    /// as needed; every touched page must carry all of `flags`.
    pub fn read_bytes(&self, addr: u32, flags: MemoryFlags, dst_len: usize) -> (r: Result<
        Vec<u8>,
        MemFault,
    >)
        requires
            self.wf(),
            addr as int + dst_len as int <= 0x1_0000_0000,
        ensures
            r is Ok <==> self.spec_allowed(addr as int, dst_len as int, flags),
            r matches Ok(v) ==> v@.len() == dst_len && forall|i: int|
                0 <= i < dst_len ==> #[trigger] v@[i] == self.spec_byte(addr as int + i),
    {
        self.read_unaligned(addr, flags, dst_len)
    }

    /// Little-endian 16-bit read that must not cross a page boundary.
    pub fn read_u16_aligned(&self, addr: u32, flags: MemoryFlags) -> (r: Result<u16, MemFault>)
        requires
            self.wf(),
            addr as int % (PAGE_SIZE as int) + 2 <= PAGE_SIZE,
        ensures
            r is Ok <==> self.spec_flags(addr as int / (PAGE_SIZE as int)).spec_contains(flags),
            r matches Ok(v) ==> v == self.spec_le(addr as int, 2),
            r matches Err(f) ==> f.page_base == (addr as int / (PAGE_SIZE as int)) * (
            PAGE_SIZE as int),
    {
        match self.read_aligned(addr, flags, 2) {
            Err(f) => Err(f),
            Ok(bs) => {
                let v: u16 = bs[0] as u16 + bs[1] as u16 * 0x100;
                proof {
                    reveal_with_fuel(Memory::spec_le, 3);
                }
                Ok(v)
            },
        }
    }

    /// Little-endian 32-bit read that must not cross a page boundary.
    pub fn read_u32_aligned(&self, addr: u32, flags: MemoryFlags) -> (r: Result<u32, MemFault>)
        requires
            self.wf(),
            addr as int % (PAGE_SIZE as int) + 4 <= PAGE_SIZE,
        ensures
            r is Ok <==> self.spec_flags(addr as int / (PAGE_SIZE as int)).spec_contains(flags),
            r matches Ok(v) ==> v == self.spec_le(addr as int, 4),
            r matches Err(f) ==> f.page_base == (addr as int / (PAGE_SIZE as int)) * (
            PAGE_SIZE as int),
    {
        match self.read_aligned(addr, flags, 4) {
            Err(f) => Err(f),
            Ok(bs) => {
                let v: u32 = bs[0] as u32 + bs[1] as u32 * 0x100 + bs[2] as u32 * 0x1_0000 + bs[3]
                    as u32 * 0x100_0000;
                proof {
                    reveal_with_fuel(Memory::spec_le, 5);
                }
                Ok(v)
            },
        }
    }

    /// Little-endian 64-bit read that must not cross a page boundary.
    pub fn read_u64_aligned(&self, addr: u32, flags: MemoryFlags) -> (r: Result<u64, MemFault>)
        requires
            self.wf(),
            addr as int % (PAGE_SIZE as int) + 8 <= PAGE_SIZE,
        ensures
            r is Ok <==> self.spec_flags(addr as int / (PAGE_SIZE as int)).spec_contains(flags),
            r matches Ok(v) ==> v == self.spec_le(addr as int, 8),
            r matches Err(f) ==> f.page_base == (addr as int / (PAGE_SIZE as int)) * (
            PAGE_SIZE as int),
    {
        match self.read_aligned(addr, flags, 8) {
            Err(f) => Err(f),
            Ok(bs) => {
                let v: u64 = bs[0] as u64 + bs[1] as u64 * 0x100 + bs[2] as u64 * 0x1_0000 + bs[3]
                    as u64 * 0x100_0000 + bs[4] as u64 * 0x1_0000_0000 + bs[5] as u64
                    * 0x100_0000_0000 + bs[6] as u64 * 0x1_0000_0000_0000 + bs[7] as u64
                    * 0x100_0000_0000_0000;
                proof {
                    reveal_with_fuel(Memory::spec_le, 9);
                }
                Ok(v)
            },
        }
    }

    /// Little-endian 16-bit read that may cross a page boundary.
    pub fn read_u16_unaligned(&self, addr: u32, flags: MemoryFlags) -> (r: Result<u16, MemFault>)
        requires
            self.wf(),
            addr as int + 2 <= 0x1_0000_0000,
        ensures
            r is Ok <==> self.spec_allowed(addr as int, 2, flags),
            r matches Ok(v) ==> v == self.spec_le(addr as int, 2),
    {
        match self.read_unaligned(addr, flags, 2) {
            Err(f) => Err(f),
            Ok(bs) => {
                let v: u16 = bs[0] as u16 + bs[1] as u16 * 0x100;
                proof {
                    reveal_with_fuel(Memory::spec_le, 3);
                }
                Ok(v)
            },
        }
    }

    /// Little-endian 32-bit read that may cross a page boundary.
    pub fn read_u32_unaligned(&self, addr: u32, flags: MemoryFlags) -> (r: Result<u32, MemFault>)
        requires
            self.wf(),
            addr as int + 4 <= 0x1_0000_0000,
        ensures
            r is Ok <==> self.spec_allowed(addr as int, 4, flags),
            r matches Ok(v) ==> v == self.spec_le(addr as int, 4),
    {
        match self.read_unaligned(addr, flags, 4) {
            Err(f) => Err(f),
            Ok(bs) => {
                let v: u32 = bs[0] as u32 + bs[1] as u32 * 0x100 + bs[2] as u32 * 0x1_0000 + bs[3]
                    as u32 * 0x100_0000;
                proof {
                    reveal_with_fuel(Memory::spec_le, 5);
                }
                Ok(v)
            },
        }
    }

    /// Little-endian 64-bit read that may cross a page boundary.
    pub fn read_u64_unaligned(&self, addr: u32, flags: MemoryFlags) -> (r: Result<u64, MemFault>)
        requires
            self.wf(),
            addr as int + 8 <= 0x1_0000_0000,
        ensures
            r is Ok <==> self.spec_allowed(addr as int, 8, flags),
            r matches Ok(v) ==> v == self.spec_le(addr as int, 8),
    {
        match self.read_unaligned(addr, flags, 8) {
            Err(f) => Err(f),
            Ok(bs) => {
                let v: u64 = bs[0] as u64 + bs[1] as u64 * 0x100 + bs[2] as u64 * 0x1_0000 + bs[3]
                    as u64 * 0x100_0000 + bs[4] as u64 * 0x1_0000_0000 + bs[5] as u64
                    * 0x100_0000_0000 + bs[6] as u64 * 0x1_0000_0000_0000 + bs[7] as u64
                    * 0x100_0000_0000_0000;
                proof {
                    reveal_with_fuel(Memory::spec_le, 9);
                }
                Ok(v)
            },
        }
    }
}

/// Bytes of a page that no initialization has ever backed read as zero:
/// lazily allocated storage is indistinguishable from explicit zero fill.
pub proof fn lemma_unbacked_page_reads_zero(m: Memory, a: int)
    requires
        m.wf(),
        0 <= a < 0x1_0000_0000,
        !m.spec_backed(a / (PAGE_SIZE as int)),
    ensures
        m.spec_byte(a) == 0,
{
}

/// Zero-marking allocates nothing: an operation that leaves every page's
/// backing storage untouched (as `init_zero` promises) changes no visible
/// byte and backs no page, whatever it does to the permission flags.
pub proof fn lemma_untouched_data_reads_same(m1: Memory, m2: Memory)
    requires
        m1.wf(),
        m2.wf(),
        forall|p: int| 0 <= p < NUM_PAGES ==> #[trigger] m2.pages@[p].data == m1.pages@[p].data,
    ensures
        forall|a: int| 0 <= a < 0x1_0000_0000 ==> #[trigger] m2.spec_byte(a) == m1.spec_byte(a),
        forall|p: int| 0 <= p < NUM_PAGES ==> #[trigger] m2.spec_backed(p) == m1.spec_backed(p),
{
    assert forall|a: int| 0 <= a < 0x1_0000_0000 implies #[trigger] m2.spec_byte(a)
        == m1.spec_byte(a) by {
        vstd::arithmetic::div_mod::lemma_div_is_ordered(a, 0xFFFF_FFFF, PAGE_SIZE as int);
        assert(m2.pages@[a / (PAGE_SIZE as int)].data == m1.pages@[a / (PAGE_SIZE as int)].data);
    };
}

/// Copy-in then read-back is the identity: once memory holds the source
/// bytes over `[base, base + len)` (as `init_copy` establishes), the byte
/// sequence visible there is exactly the copied slice of the source.
pub proof fn lemma_copy_round_trip(m: Memory, base: u32, src: Seq<u8>, off: int, len: u32)
    requires
        m.wf(),
        0 <= off,
        off + len <= src.len(),
        base as int + len as int <= 0x1_0000_0000,
        forall|i: int| 0 <= i < len ==> #[trigger] m.spec_byte(base as int + i) == src[off + i],
    ensures
        Seq::new(len as nat, |i: int| m.spec_byte(base as int + i)) == src.subrange(
            off,
            off + len,
        ),
{
    let read = Seq::new(len as nat, |i: int| m.spec_byte(base as int + i));
    assert(read =~= src.subrange(off, off + len));
}

} // verus!

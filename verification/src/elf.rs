use vstd::prelude::*;
use crate::error::Error;
use crate::mem::{le_u64, MemView, PhysMem};
use crate::util::spec_align_up;
use vstd::slice::slice_subrange;

verus! {

/// Size in bytes of an ELF64 file header.
pub const ELF_HEADER_SIZE: usize = 64;

/// Size in bytes of an ELF64 program header.
pub const PROGRAM_HEADER_SIZE: u64 = 56;

/// The 16-bit little-endian value at offset `o` of `s`.
pub open spec fn le_u16(s: Seq<u8>, o: int) -> u16 {
    (s[o] as u16) | (s[o + 1] as u16) << 8u16
}

/// The 32-bit little-endian value at offset `o` of `s`.
pub open spec fn le_u32(s: Seq<u8>, o: int) -> u32 {
    (s[o] as u32) | (s[o + 1] as u32) << 8u32 | (s[o + 2] as u32) << 16u32 | (s[o + 3] as u32)
        << 24u32
}

/// The ELF64 file header at the start of an image.
#[derive(Debug)]
pub struct ElfHeader {
    pub e_ident: [u8; 16],
    pub e_type: u16,
    pub e_machine: u16,
    pub e_version: u32,
    pub e_entry: u64,
    pub e_phoff: u64,
    pub e_shoff: u64,
    pub e_flags: u32,
    pub e_ehsize: u16,
    pub e_phentsize: u16,
    pub e_phnum: u16,
    pub e_shentsize: u16,
    pub e_shnum: u16,
    pub e_shstrndx: u16,
}

/// One ELF64 program header: a segment of the image and where it wants to live.
#[derive(Debug, Clone, Copy)]
pub struct ProgramHeader {
    pub p_type: u32,
    pub p_flags: u32,
    pub p_offset: u64,
    pub p_vaddr: u64,
    pub p_paddr: u64,
    pub p_filesz: u64,
    pub p_memsz: u64,
    pub p_align: u64,
}

/// The program header encoded at offset `o` of `s`.
pub open spec fn phdr_at(s: Seq<u8>, o: int) -> ProgramHeader {
    ProgramHeader {
        p_type: le_u32(s, o),
        p_flags: le_u32(s, o + 4),
        p_offset: le_u64(s, o + 8),
        p_vaddr: le_u64(s, o + 16),
        p_paddr: le_u64(s, o + 24),
        p_filesz: le_u64(s, o + 32),
        p_memsz: le_u64(s, o + 40),
        p_align: le_u64(s, o + 48),
    }
}

fn read_u16(data: &[u8], o: usize) -> (r: u16)
    requires
        o + 2 <= data@.len(),
    ensures
        r == le_u16(data@, o as int),
{
    assert(data@.len() == data.len());
    (data[o] as u16) | (data[o + 1] as u16) << 8u16
}

fn read_u32(data: &[u8], o: usize) -> (r: u32)
    requires
        o + 4 <= data@.len(),
    ensures
        r == le_u32(data@, o as int),
{
    assert(data@.len() == data.len());
    (data[o] as u32) | (data[o + 1] as u32) << 8u32 | (data[o + 2] as u32) << 16u32 | (data[o
        + 3] as u32) << 24u32
}

fn read_u64(data: &[u8], o: usize) -> (r: u64)
    requires
        o + 8 <= data@.len(),
    ensures
        r == le_u64(data@, o as int),
{
    assert(data@.len() == data.len());
    (data[o] as u64) | (data[o + 1] as u64) << 8u64 | (data[o + 2] as u64) << 16u64 | (data[o
        + 3] as u64) << 24u64 | (data[o + 4] as u64) << 32u64 | (data[o + 5] as u64) << 40u64 | (
    data[o + 6] as u64) << 48u64 | (data[o + 7] as u64) << 56u64
}

/// Reads the program header at offset `o` of the image.
fn read_phdr(data: &[u8], o: usize) -> (r: ProgramHeader)
    requires
        o + 56 <= data@.len(),
    ensures
        r == phdr_at(data@, o as int),
{
    assert(data@.len() == data.len());
    ProgramHeader {
        p_type: read_u32(data, o),
        p_flags: read_u32(data, o + 4),
        p_offset: read_u64(data, o + 8),
        p_vaddr: read_u64(data, o + 16),
        p_paddr: read_u64(data, o + 24),
        p_filesz: read_u64(data, o + 32),
        p_memsz: read_u64(data, o + 40),
        p_align: read_u64(data, o + 48),
    }
}

/// Program header `i` of an image whose header table starts at `phoff`.
pub open spec fn phdr_of(s: Seq<u8>, phoff: int, i: int) -> ProgramHeader {
    phdr_at(s, phoff + 56 * i)
}

/// The highest end address among the first `n` segments, and never below the
/// first segment's start.
pub open spec fn span_end_at(s: Seq<u8>, phoff: int, n: nat) -> int
    decreases n,
{
    if n == 0 {
        phdr_of(s, phoff, 0).p_vaddr as int
    } else {
        let e = span_end_at(s, phoff, (n - 1) as nat);
        let seg_end = phdr_of(s, phoff, n - 1).p_vaddr + phdr_of(s, phoff, n - 1).p_memsz;
        if e < seg_end {
            seg_end
        } else {
            e
        }
    }
}

/// The file bytes of the first `n` segments, one after another.
pub open spec fn packed_segments(s: Seq<u8>, phoff: int, n: nat) -> Seq<u8>
    decreases n,
{
    if n == 0 {
        Seq::empty()
    } else {
        let ph = phdr_of(s, phoff, n - 1);
        packed_segments(s, phoff, (n - 1) as nat) + s.subrange(
            ph.p_offset as int,
            ph.p_offset + ph.p_filesz,
        )
    }
}

/// Offset of the program header table that the header of `s` records.
pub open spec fn image_phoff(s: Seq<u8>) -> int {
    le_u64(s, 32) as int
}

/// Number of program headers that the header of `s` records.
pub open spec fn image_phnum(s: Seq<u8>) -> nat {
    le_u16(s, 56) as nat
}

/// Pages that the segments of image `s` span in virtual memory.
pub open spec fn image_pages(s: Seq<u8>) -> int {
    spec_align_up(
        span_end_at(s, image_phoff(s), image_phnum(s)) - phdr_of(s, image_phoff(s), 0).p_vaddr,
        4096,
    ) / 4096
}

/// The file bytes of the segments of image `s`, packed.
pub open spec fn image_bytes(s: Seq<u8>) -> Seq<u8> {
    packed_segments(s, image_phoff(s), image_phnum(s))
}

/// `s` is an image that a process can be built from: it has a header, its
/// page count is defined, and its segments lie inside it.
pub open spec fn image_ok(s: Seq<u8>) -> bool {
    s.len() >= 64 && forall|h: ElfHeader| #[trigger] h.parsed_from(s) ==> {
        &&& h.count_page_ok(s)
        &&& h.segments_in(s)
        &&& h.segments(s, h.e_phnum as nat).len() <= u64::MAX
    }
}

impl ElfHeader {
    /// `self` holds the header fields encoded at the start of `s`.
    pub open spec fn parsed_from(&self, s: Seq<u8>) -> bool {
        &&& self.e_ident@ == s.subrange(0, 16)
        &&& self.e_type == le_u16(s, 16)
        &&& self.e_machine == le_u16(s, 18)
        &&& self.e_version == le_u32(s, 20)
        &&& self.e_entry == le_u64(s, 24)
        &&& self.e_phoff == le_u64(s, 32)
        &&& self.e_shoff == le_u64(s, 40)
        &&& self.e_flags == le_u32(s, 48)
        &&& self.e_ehsize == le_u16(s, 52)
        &&& self.e_phentsize == le_u16(s, 54)
        &&& self.e_phnum == le_u16(s, 56)
        &&& self.e_shentsize == le_u16(s, 58)
        &&& self.e_shnum == le_u16(s, 60)
        &&& self.e_shstrndx == le_u16(s, 62)
    }

    /// Reads the file header at the start of `data`; an image shorter than a
    /// header is no ELF image.
    pub fn new(data: &[u8]) -> (r: Result<ElfHeader, Error>)
        ensures
            r is Ok <==> data@.len() >= 64,
            match r {
                Ok(h) => h.parsed_from(data@),
                Err(e) => e is InvalidElf,
            },
    {
        if data.len() < ELF_HEADER_SIZE {
            return Err(Error::InvalidElf);
        }
        let mut ident: [u8; 16] = [0u8; 16];
        let mut k: usize = 0;
        while k < 16
            invariant
                k <= 16,
                data@.len() >= 64,
                forall|m: int| 0 <= m < k ==> #[trigger] ident@[m] == data@[m],
            decreases 16 - k,
        {
            ident[k] = data[k];
            k = k + 1;
        }
        assert(ident@ =~= data@.subrange(0, 16));
        Ok(
            ElfHeader {
                e_ident: ident,
                e_type: read_u16(data, 16),
                e_machine: read_u16(data, 18),
                e_version: read_u32(data, 20),
                e_entry: read_u64(data, 24),
                e_phoff: read_u64(data, 32),
                e_shoff: read_u64(data, 40),
                e_flags: read_u32(data, 48),
                e_ehsize: read_u16(data, 52),
                e_phentsize: read_u16(data, 54),
                e_phnum: read_u16(data, 56),
                e_shentsize: read_u16(data, 58),
                e_shnum: read_u16(data, 60),
                e_shstrndx: read_u16(data, 62),
            },
        )
    }

    /// Program header `i` of the image `s`.
    pub open spec fn phdr(&self, s: Seq<u8>, i: int) -> ProgramHeader {
        phdr_at(s, self.e_phoff + 56 * i)
    }

    /// The first `n` program headers lie inside `s`.
    pub open spec fn phdrs_in(&self, s: Seq<u8>, n: int) -> bool {
        self.e_phoff + 56 * n <= s.len()
    }

    /// One past the last virtual address of segment `i` in memory.
    pub open spec fn seg_end(&self, s: Seq<u8>, i: int) -> int {
        self.phdr(s, i).p_vaddr + self.phdr(s, i).p_memsz
    }

    /// The highest end address among the first `n` segments, and never below the
    /// first segment's start.
    pub open spec fn span_end(&self, s: Seq<u8>, n: nat) -> int {
        span_end_at(s, self.e_phoff as int, n)
    }

    /// Pages spanned from the first segment's start to the highest segment end.
    pub open spec fn spec_count_page(&self, s: Seq<u8>) -> int {
        spec_align_up(self.span_end(s, self.e_phnum as nat) - self.phdr(s, 0).p_vaddr, 4096) / 4096
    }

    /// The page count is defined: the headers are inside the image and no
    /// segment end or rounding leaves 64 bits.
    pub open spec fn count_page_ok(&self, s: Seq<u8>) -> bool {
        &&& self.phdrs_in(s, if self.e_phnum == 0 { 1 } else { self.e_phnum as int })
        &&& forall|i: int| 0 <= i < self.e_phnum ==> #[trigger] self.seg_end(s, i) <= u64::MAX
        &&& ({
            let span = self.span_end(s, self.e_phnum as nat) - self.phdr(s, 0).p_vaddr;
            span % 4096 == 0 || span + 4096 <= u64::MAX
        })
        &&& self.spec_count_page(s) <= usize::MAX
    }

    /// Number of pages that the image's segments span in virtual memory, from
    /// the first segment's start to the highest segment end.
    pub fn count_page(&self, data: &[u8]) -> (r: Result<usize, Error>)
        ensures
            r is Ok <==> self.count_page_ok(data@),
            match r {
                Ok(n) => n == self.spec_count_page(data@),
                Err(e) => e is InvalidElf,
            },
    {
        let len: u64 = data.len() as u64;
        let hdrs: u64 = if self.e_phnum == 0 {
            1
        } else {
            self.e_phnum as u64
        };
        let table_end: Option<u64> = match hdrs.checked_mul(PROGRAM_HEADER_SIZE) {
            Some(sz) => self.e_phoff.checked_add(sz),
            None => None,
        };
        match table_end {
            Some(e) => {
                if e > len {
                    return Err(Error::InvalidElf);
                }
            },
            None => {
                return Err(Error::InvalidElf);
            },
        }
        let first: ProgramHeader = read_phdr(data, self.e_phoff as usize);
        let start_vaddr: u64 = first.p_vaddr;
        let mut end_vaddr: u64 = start_vaddr;
        let mut i: u16 = 0;
        while i < self.e_phnum
            invariant
                i <= self.e_phnum,
                self.phdrs_in(data@, if self.e_phnum == 0 { 1 } else { self.e_phnum as int }),
                len == data@.len(),
                data@.len() <= usize::MAX,
                start_vaddr == self.phdr(data@, 0).p_vaddr,
                end_vaddr == self.span_end(data@, i as nat),
                forall|k: int| 0 <= k < i ==> #[trigger] self.seg_end(data@, k) <= u64::MAX,
            decreases self.e_phnum - i,
        {
            let off: u64 = self.e_phoff + PROGRAM_HEADER_SIZE * (i as u64);
            let ph: ProgramHeader = read_phdr(data, off as usize);
            assert(ph == self.phdr(data@, i as int));
            let vaddr: u64 = ph.p_vaddr;
            let memsz: u64 = ph.p_memsz;
            match vaddr.checked_add(memsz) {
                Some(seg_end) => {
                    if end_vaddr < seg_end {
                        end_vaddr = seg_end;
                    }
                },
                None => {
                    assert(self.seg_end(data@, i as int) > u64::MAX);
                    return Err(Error::InvalidElf);
                },
            }
            i = i + 1;
        }
        proof {
            lemma_span_end_ge_start(self, data@, self.e_phnum as nat);
        }
        let span: u64 = end_vaddr - start_vaddr;
        let rem: u64 = span % 4096;
        if rem != 0 && span > u64::MAX - 4096 {
            return Err(Error::InvalidElf);
        }
        let rounded: u64 = crate::util::align_up(span, 4096);
        let pages: u64 = rounded / 4096;
        if pages > usize::MAX as u64 {
            return Err(Error::InvalidElf);
        }
        Ok(pages as usize)
    }

    /// The file bytes of segment `i`.
    pub open spec fn segment(&self, s: Seq<u8>, i: int) -> Seq<u8> {
        s.subrange(
            self.phdr(s, i).p_offset as int,
            self.phdr(s, i).p_offset + self.phdr(s, i).p_filesz,
        )
    }

    /// The file bytes of the first `n` segments, one after another.
    pub open spec fn segments(&self, s: Seq<u8>, n: nat) -> Seq<u8> {
        packed_segments(s, self.e_phoff as int, n)
    }

    /// The headers and every segment's file bytes lie inside the image.
    pub open spec fn segments_in(&self, s: Seq<u8>) -> bool {
        &&& self.phdrs_in(s, self.e_phnum as int)
        &&& forall|i: int|
            0 <= i < self.e_phnum ==> #[trigger] self.phdr(s, i).p_offset + self.phdr(
                s,
                i,
            ).p_filesz <= s.len()
    }

    /// The segments are inside the image and, packed, fit in memory at `paddr`.
    pub open spec fn load_ok(&self, s: Seq<u8>, m: MemView, paddr: int) -> bool {
        &&& self.segments_in(s)
        &&& m.contains_range(paddr, self.segments(s, self.e_phnum as nat).len() as int)
    }

    /// Total size of the segments' file bytes, when every segment lies inside
    /// the image and the total fits in 64 bits.
    pub fn packed_size(&self, data: &[u8]) -> (r: Option<u64>)
        ensures
            r is Some <==> self.segments_in(data@) && self.segments(data@, self.e_phnum as nat).len()
                <= u64::MAX,
            match r {
                Some(t) => t == self.segments(data@, self.e_phnum as nat).len(),
                None => true,
            },
    {
        let len: u64 = data.len() as u64;
        let table_end: Option<u64> = match (self.e_phnum as u64).checked_mul(PROGRAM_HEADER_SIZE) {
            Some(sz) => self.e_phoff.checked_add(sz),
            None => None,
        };
        match table_end {
            Some(e) => {
                if e > len {
                    return None;
                }
            },
            None => {
                return None;
            },
        }
        let mut total: u64 = 0;
        let mut overflow: bool = false;
        let mut i: u16 = 0;
        while i < self.e_phnum
            invariant
                i <= self.e_phnum,
                self.phdrs_in(data@, self.e_phnum as int),
                len == data@.len(),
                data@.len() <= usize::MAX,
                forall|k: int|
                    0 <= k < i ==> #[trigger] self.phdr(data@, k).p_offset + self.phdr(
                        data@,
                        k,
                    ).p_filesz <= data@.len(),
                !overflow ==> total == self.segments(data@, i as nat).len(),
                overflow ==> self.segments(data@, i as nat).len() > u64::MAX,
            decreases self.e_phnum - i,
        {
            let off: u64 = self.e_phoff + PROGRAM_HEADER_SIZE * (i as u64);
            let ph: ProgramHeader = read_phdr(data, off as usize);
            assert(ph == self.phdr(data@, i as int));
            match ph.p_offset.checked_add(ph.p_filesz) {
                Some(seg_end) => {
                    if seg_end > len {
                        assert(self.phdr(data@, i as int).p_offset + self.phdr(data@, i as int).p_filesz
                            > data@.len());
                        return None;
                    }
                },
                None => {
                    assert(self.phdr(data@, i as int).p_offset + self.phdr(data@, i as int).p_filesz
                        > data@.len());
                    return None;
                },
            }
            if !overflow {
                match total.checked_add(ph.p_filesz) {
                    Some(t) => {
                        total = t;
                    },
                    None => {
                        overflow = true;
                    },
                }
            }
            i = i + 1;
        }
        if overflow {
            None
        } else {
            Some(total)
        }
    }

    /// Copies the file bytes of every segment to physical memory, packed one
    /// after another from `paddr` in header order.
    pub fn load(&self, data: &[u8], mem: &mut PhysMem, paddr: u64) -> (r: Result<(), Error>)
        requires
            old(mem)@.wf(),
        ensures
            r is Ok <==> self.load_ok(data@, old(mem)@, paddr as int),
            match r {
                Ok(_) => {
                    &&& final(mem)@.base == old(mem)@.base
                    &&& final(mem)@.next == old(mem)@.next
                    &&& final(mem)@.bytes == old(mem)@.bytes.subrange(0, paddr - old(mem)@.base)
                        + self.segments(data@, self.e_phnum as nat) + old(mem)@.bytes.subrange(
                        paddr - old(mem)@.base + self.segments(data@, self.e_phnum as nat).len(),
                        old(mem)@.bytes.len() as int,
                    )
                },
                Err(e) => e is InvalidElf && final(mem)@ == old(mem)@,
            },
    {
        let total: u64 = match self.packed_size(data) {
            Some(t) => t,
            None => {
                return Err(Error::InvalidElf);
            },
        };
        let base: u64 = mem.base();
        let end: u64 = mem.end();
        if paddr < base || paddr > end || total > end - paddr {
            return Err(Error::InvalidElf);
        }
        // Copy the segments.
        assert(data@.len() == data.len());
        let ghost m0 = mem@;
        let ghost o = paddr - m0.base;
        let mut dst: u64 = paddr;
        let mut i: u16 = 0;
        while i < self.e_phnum
            invariant
                i <= self.e_phnum,
                self.load_ok(data@, m0, paddr as int),
                data@.len() <= usize::MAX,
                m0.end() <= u64::MAX,
                o == paddr - m0.base,
                dst == paddr + self.segments(data@, i as nat).len(),
                self.segments(data@, i as nat).len() <= self.segments(
                    data@,
                    self.e_phnum as nat,
                ).len(),
                mem@.base == m0.base,
                mem@.next == m0.next,
                mem@.bytes == m0.bytes.subrange(0, o) + self.segments(data@, i as nat)
                    + m0.bytes.subrange(o + self.segments(data@, i as nat).len(), m0.bytes.len() as int),
            decreases self.e_phnum - i,
        {
            let off: u64 = self.e_phoff + PROGRAM_HEADER_SIZE * (i as u64);
            let ph: ProgramHeader = read_phdr(data, off as usize);
            assert(ph == self.phdr(data@, i as int));
            let seg: &[u8] = slice_subrange(data, ph.p_offset as usize, (ph.p_offset + ph.p_filesz) as usize);
            proof {
                lemma_segments_grow(self, data@, i as nat, self.e_phnum as nat);
            }
            let ghost before = mem@;
            mem.write_bytes(dst, seg);
            proof {
                let sg = self.segments(data@, i as nat);
                let sg2 = self.segments(data@, (i + 1) as nat);
                assert(sg2 == sg + seg@);
                assert(mem@.bytes =~= m0.bytes.subrange(0, o) + sg2 + m0.bytes.subrange(
                    o + sg2.len(),
                    m0.bytes.len() as int,
                ));
            }
            dst = dst + ph.p_filesz;
            i = i + 1;
        }
        Ok(())
    }
}

/// The span never ends before the first segment starts.
proof fn lemma_span_end_ge_start(h: &ElfHeader, s: Seq<u8>, n: nat)
    ensures
        h.span_end(s, n) >= h.phdr(s, 0).p_vaddr,
    decreases n,
{
    if n > 0 {
        lemma_span_end_ge_start(h, s, (n - 1) as nat);
    }
}

/// Packed segments only grow as more segments are added.
proof fn lemma_segments_grow(h: &ElfHeader, s: Seq<u8>, i: nat, n: nat)
    requires
        i < n,
        forall|k: int|
            0 <= k < n ==> #[trigger] h.phdr(s, k).p_offset + h.phdr(s, k).p_filesz <= s.len(),
    ensures
        h.segments(s, (i + 1) as nat).len() <= h.segments(s, n).len(),
        h.segments(s, (i + 1) as nat).len() == h.segments(s, i).len() + h.phdr(s, i as int).p_filesz,
    decreases n - i,
{
    if i + 1 < n {
        lemma_segments_grow(h, s, (i + 1) as nat, n);
    }
}

/// The counted pages cover the segments' span, with less than a page to spare.
pub proof fn lemma_count_page_covers(h: &ElfHeader, s: Seq<u8>)
    ensures
        ({
            let span = h.span_end(s, h.e_phnum as nat) - h.phdr(s, 0).p_vaddr;
            &&& span >= 0
            &&& 4096 * h.spec_count_page(s) >= span
            &&& 4096 * h.spec_count_page(s) < span + 4096
        }),
{
    lemma_span_end_ge_start(h, s, h.e_phnum as nat);
    let span = h.span_end(s, h.e_phnum as nat) - h.phdr(s, 0).p_vaddr;
    crate::util::lemma_align_up(span, 4096);
    let r = spec_align_up(span, 4096);
    vstd::arithmetic::div_mod::lemma_fundamental_div_mod(r, 4096);
}

/// The span's end reaches past every segment among the first `n`, and is either
/// the first segment's start or the end of one of those segments.
proof fn lemma_span_end_is_max(s: Seq<u8>, phoff: int, n: nat)
    ensures
        forall|i: int|
            0 <= i < n ==> span_end_at(s, phoff, n) >= #[trigger] phdr_of(s, phoff, i).p_vaddr
                + phdr_of(s, phoff, i).p_memsz,
        span_end_at(s, phoff, n) == phdr_of(s, phoff, 0).p_vaddr || exists|i: int|
            0 <= i < n && span_end_at(s, phoff, n) == #[trigger] phdr_of(s, phoff, i).p_vaddr
                + phdr_of(s, phoff, i).p_memsz,
    decreases n,
{
    if n > 0 {
        lemma_span_end_is_max(s, phoff, (n - 1) as nat);
        let last = n - 1;
        if span_end_at(s, phoff, n) == phdr_of(s, phoff, last).p_vaddr + phdr_of(s, phoff, last).p_memsz {
            assert(0 <= last < n);
        }
    }
}

/// The page count of an image covers every segment, each measured from the
/// first segment's start to its own end `p_vaddr + p_memsz`, and is the least
/// such count: with one page fewer some segment's end would be left out (or
/// the count is 0).
pub proof fn lemma_count_page_spans_segments(h: &ElfHeader, s: Seq<u8>)
    ensures
        forall|i: int|
            0 <= i < h.e_phnum ==> 4096 * h.spec_count_page(s) >= #[trigger] h.phdr(s, i).p_vaddr
                + h.phdr(s, i).p_memsz - h.phdr(s, 0).p_vaddr,
        h.spec_count_page(s) >= 0,
        h.spec_count_page(s) == 0 || exists|i: int|
            0 <= i < h.e_phnum && 4096 * (h.spec_count_page(s) - 1) < #[trigger] h.phdr(s, i).p_vaddr
                + h.phdr(s, i).p_memsz - h.phdr(s, 0).p_vaddr,
{
    let n = h.e_phnum as nat;
    lemma_span_end_is_max(s, h.e_phoff as int, n);
    lemma_count_page_covers(h, s);
    let start = h.phdr(s, 0).p_vaddr as int;
    let c = h.spec_count_page(s);
    assert forall|i: int| 0 <= i < h.e_phnum implies 4096 * c >= #[trigger] h.phdr(s, i).p_vaddr
        + h.phdr(s, i).p_memsz - start by {
        assert(h.phdr(s, i) == phdr_of(s, h.e_phoff as int, i));
    }
    assert(c >= 0) by (nonlinear_arith)
        requires
            4096 * c >= 0,
    ;
    if c != 0 {
        if h.span_end(s, n) == start {
            assert(4096 * c < 4096);
            assert(c < 1) by (nonlinear_arith)
                requires
                    4096 * c < 4096,
            ;
        } else {
            let i = choose|i: int|
                0 <= i < n && span_end_at(s, h.e_phoff as int, n) == #[trigger] phdr_of(s, h.e_phoff as int, i).p_vaddr
                    + phdr_of(s, h.e_phoff as int, i).p_memsz;
            assert(h.phdr(s, i) == phdr_of(s, h.e_phoff as int, i));
            assert(4096 * (c - 1) < h.phdr(s, i).p_vaddr + h.phdr(s, i).p_memsz - start);
        }
    }
}

/// Any image whose program header table and segment file bytes all lie inside
/// it is accepted for packing, whatever the segments' sizes (a segment with no
/// file bytes, such as a `.bss`-only one, included): the segments are packed
/// in header order, each adding exactly its `p_filesz` bytes from `p_offset`,
/// so an empty one adds nothing.
pub proof fn lemma_segments_pack_in_order(h: &ElfHeader, s: Seq<u8>)
    requires
        h.e_phoff + 56 * h.e_phnum <= s.len(),
        forall|i: int|
            0 <= i < h.e_phnum ==> #[trigger] phdr_at(s, h.e_phoff + 56 * i).p_offset + phdr_at(
                s,
                h.e_phoff + 56 * i,
            ).p_filesz <= s.len(),
    ensures
        h.segments_in(s),
        h.segments(s, 0) == Seq::<u8>::empty(),
        forall|i: int|
            0 <= i < h.e_phnum ==> #[trigger] h.segments(s, (i + 1) as nat) == h.segments(s, i as nat)
                + s.subrange(
                phdr_at(s, h.e_phoff + 56 * i).p_offset as int,
                phdr_at(s, h.e_phoff + 56 * i).p_offset + phdr_at(s, h.e_phoff + 56 * i).p_filesz,
            ),
        forall|i: int|
            0 <= i < h.e_phnum && phdr_at(s, h.e_phoff + 56 * i).p_filesz == 0 ==> #[trigger] h.segments(
                s,
                (i + 1) as nat,
            ) == h.segments(s, i as nat),
{
    assert forall|i: int|
        0 <= i < h.e_phnum && phdr_at(s, h.e_phoff + 56 * i).p_filesz == 0 implies #[trigger] h.segments(
        s,
        (i + 1) as nat,
    ) == h.segments(s, i as nat) by {
        let ph = phdr_at(s, h.e_phoff + 56 * i);
        assert(s.subrange(ph.p_offset as int, ph.p_offset + ph.p_filesz) =~= Seq::<u8>::empty());
        assert(h.segments(s, (i + 1) as nat) =~= h.segments(s, i as nat));
    }
}

} // verus!

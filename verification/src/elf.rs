//! ELF64 executable parsing and the layout of a loaded user image.

use vstd::prelude::*;
use crate::vma::{Vma, VmaBacking, VmaFlags, VmaList, VMA_EXEC, VMA_READ, VMA_USER, VMA_WRITE};

verus! {

/// Size of the ELF64 file header.
pub const EHDR_SIZE: usize = 64;
/// Size of an ELF64 program header.
pub const PHDR_SIZE: usize = 56;
/// Program header type of a loadable segment.
pub const PT_LOAD: u32 = 1;

/// 64-bit ELF header.
#[allow(non_camel_case_types)]
#[derive(Debug, Clone, Copy)]
pub struct Elf64_Ehdr {
    pub e_ident: [u8; 16],
    pub e_type: u16,
    pub e_machine: u16,
    pub e_version: u32,
    pub e_entry: u64,
    pub e_phoff: u64,
    pub e_shoff: u64,
    pub e_flags: u32,
    pub e_ehsize: u16,
    pub e_phentsize: u16,
    pub e_phnum: u16,
    pub e_shentsize: u16,
    pub e_shnum: u16,
    pub e_shstrndx: u16,
}

/// 64-bit ELF program header.
#[allow(non_camel_case_types)]
#[derive(Debug, Clone, Copy, PartialEq, Eq, Structural)]
pub struct Elf64_Phdr {
    pub p_type: u32,
    pub p_flags: u32,
    pub p_offset: u64,
    pub p_vaddr: u64,
    pub p_paddr: u64,
    pub p_filesz: u64,
    pub p_memsz: u64,
    pub p_align: u64,
}

pub open spec fn le_u16(s: Seq<u8>, off: int) -> int {
    s[off] + 256 * s[off + 1]
}

pub open spec fn le_u32(s: Seq<u8>, off: int) -> int {
    le_u16(s, off) + 65536 * le_u16(s, off + 2)
}

pub open spec fn le_u64(s: Seq<u8>, off: int) -> int {
    le_u32(s, off) + 4294967296 * le_u32(s, off + 4)
}

/// `h` is the ELF header stored in the first 64 bytes of `s`.
pub open spec fn is_ehdr_of(h: Elf64_Ehdr, s: Seq<u8>) -> bool {
    &&& h.e_ident@ == s.subrange(0, 16)
    &&& h.e_type == le_u16(s, 16)
    &&& h.e_machine == le_u16(s, 18)
    &&& h.e_version == le_u32(s, 20)
    &&& h.e_entry == le_u64(s, 24)
    &&& h.e_phoff == le_u64(s, 32)
    &&& h.e_shoff == le_u64(s, 40)
    &&& h.e_flags == le_u32(s, 48)
    &&& h.e_ehsize == le_u16(s, 52)
    &&& h.e_phentsize == le_u16(s, 54)
    &&& h.e_phnum == le_u16(s, 56)
    &&& h.e_shentsize == le_u16(s, 58)
    &&& h.e_shnum == le_u16(s, 60)
    &&& h.e_shstrndx == le_u16(s, 62)
}

/// `p` is the program header stored at `off` in `s`.
pub open spec fn is_phdr_at(p: Elf64_Phdr, s: Seq<u8>, off: int) -> bool {
    &&& p.p_type == le_u32(s, off)
    &&& p.p_flags == le_u32(s, off + 4)
    &&& p.p_offset == le_u64(s, off + 8)
    &&& p.p_vaddr == le_u64(s, off + 16)
    &&& p.p_paddr == le_u64(s, off + 24)
    &&& p.p_filesz == le_u64(s, off + 32)
    &&& p.p_memsz == le_u64(s, off + 40)
    &&& p.p_align == le_u64(s, off + 48)
}

/// The bytes are an ELF image the loader accepts: long enough for a header,
/// with the magic `7F 'E' 'L' 'F'`, 64-bit class, little-endian data, and of
/// type executable (2) or shared object (3).
pub open spec fn accepted(s: Seq<u8>) -> bool {
    &&& s.len() >= EHDR_SIZE
    &&& s[0] == 0x7F && s[1] == 0x45 && s[2] == 0x4C && s[3] == 0x46
    &&& s[4] == 2
    &&& s[5] == 1
    &&& (le_u16(s, 16) == 2 || le_u16(s, 16) == 3)
}

fn read_u16(s: &[u8], off: usize) -> (r: u16)
    requires
        off + 2 <= s.len(),
    ensures
        r == le_u16(s@, off as int),
{
    (s[off] as u16) + 256 * (s[off + 1] as u16)
}

fn read_u32(s: &[u8], off: usize) -> (r: u32)
    requires
        off + 4 <= s.len(),
    ensures
        r == le_u32(s@, off as int),
{
    (read_u16(s, off) as u32) + 65536 * (read_u16(s, off + 2) as u32)
}

fn read_u64(s: &[u8], off: usize) -> (r: u64)
    requires
        off + 8 <= s.len(),
    ensures
        r == le_u64(s@, off as int),
{
    (read_u32(s, off) as u64) + 4294967296 * (read_u32(s, off + 4) as u64)
}

/// Decode the ELF header at the start of `s`.
pub fn parse_ehdr(s: &[u8]) -> (h: Elf64_Ehdr)
    requires
        s@.len() >= EHDR_SIZE,
    ensures
        is_ehdr_of(h, s@),
{
    let e_ident = [
        s[0], s[1], s[2], s[3], s[4], s[5], s[6], s[7], s[8], s[9], s[10], s[11], s[12], s[13],
        s[14], s[15],
    ];
    let h = Elf64_Ehdr {
        e_ident,
        e_type: read_u16(s, 16),
        e_machine: read_u16(s, 18),
        e_version: read_u32(s, 20),
        e_entry: read_u64(s, 24),
        e_phoff: read_u64(s, 32),
        e_shoff: read_u64(s, 40),
        e_flags: read_u32(s, 48),
        e_ehsize: read_u16(s, 52),
        e_phentsize: read_u16(s, 54),
        e_phnum: read_u16(s, 56),
        e_shentsize: read_u16(s, 58),
        e_shnum: read_u16(s, 60),
        e_shstrndx: read_u16(s, 62),
    };
    assert(h.e_ident@ =~= s@.subrange(0, 16));
    h
}

/// Decode the program header at `off` in `s`.
pub fn parse_phdr(s: &[u8], off: usize) -> (p: Elf64_Phdr)
    requires
        off + PHDR_SIZE <= s.len(),
    ensures
        is_phdr_at(p, s@, off as int),
{
    Elf64_Phdr {
        p_type: read_u32(s, off),
        p_flags: read_u32(s, off + 4),
        p_offset: read_u64(s, off + 8),
        p_vaddr: read_u64(s, off + 16),
        p_paddr: read_u64(s, off + 24),
        p_filesz: read_u64(s, off + 32),
        p_memsz: read_u64(s, off + 40),
        p_align: read_u64(s, off + 48),
    }
}

/// A parsed ELF image.
pub struct ElfParser<'a> {
    data: &'a [u8],
    header: Elf64_Ehdr,
}

/// Offset of program header `i`.
pub open spec fn phdr_offset(h: Elf64_Ehdr, i: int) -> int {
    h.e_phoff + i * h.e_phentsize
}

/// Program header `i` lies inside the image (its table entry and a whole
/// program header).
pub open spec fn phdr_in_image(h: Elf64_Ehdr, s: Seq<u8>, i: int) -> bool {
    phdr_offset(h, i) + h.e_phentsize <= s.len() && phdr_offset(h, i) + PHDR_SIZE <= s.len()
}

/// Loadable segments among the first `n` program headers, in table order.
pub open spec fn load_segments_upto(h: Elf64_Ehdr, s: Seq<u8>, n: int) -> Seq<int>
    decreases n,
{
    if n <= 0 {
        Seq::empty()
    } else if phdr_in_image(h, s, n - 1) && le_u32(s, phdr_offset(h, n - 1)) == PT_LOAD {
        load_segments_upto(h, s, n - 1).push(phdr_offset(h, n - 1))
    } else {
        load_segments_upto(h, s, n - 1)
    }
}

impl<'a> ElfParser<'a> {
    /// The image bytes.
    pub closed spec fn data(&self) -> Seq<u8> {
        self.data@
    }

    /// The decoded file header.
    pub closed spec fn hdr(&self) -> Elf64_Ehdr {
        self.header
    }

    /// Validate `data` as an ELF executable; `None` when it is not accepted.
    pub fn new(data: &'a [u8]) -> (r: Option<ElfParser<'a>>)
        ensures
            r is Some <==> accepted(data@),
            r matches Some(p) ==> p.data() == data@ && is_ehdr_of(p.hdr(), data@),
    {
        if data.len() < EHDR_SIZE {
            return None;
        }
        let header = parse_ehdr(data);
        if data[0] != 0x7F || data[1] != 0x45 || data[2] != 0x4C || data[3] != 0x46 {
            return None;
        }
        if data[4] != 2 {
            return None;
        }
        if data[5] != 1 {
            return None;
        }
        if header.e_type != 2 && header.e_type != 3 {
            return None;
        }
        Some(ElfParser { data, header })
    }

    /// The entry point address.
    pub fn entry_point(&self) -> (r: u64)
        ensures
            r == self.hdr().e_entry,
    {
        self.header.e_entry
    }

    /// The file header.
    pub fn header(&self) -> (r: Elf64_Ehdr)
        ensures
            r == self.hdr(),
    {
        self.header
    }

    /// The loadable (`PT_LOAD`) program headers, in table order, skipping
    /// entries that do not lie inside the image.
    pub fn load_segments(&self) -> (r: Vec<Elf64_Phdr>)
        requires
            self.hdr().e_phoff + self.hdr().e_phnum * self.hdr().e_phentsize
                + PHDR_SIZE <= u64::MAX,
        ensures
            r@.len() == load_segments_upto(self.hdr(), self.data(), self.hdr().e_phnum as int).len(),
            forall|k: int|
                0 <= k < r@.len() ==> is_phdr_at(
                    #[trigger] r@[k],
                    self.data(),
                    load_segments_upto(self.hdr(), self.data(), self.hdr().e_phnum as int)[k],
                ),
    {
        let phoff = self.header.e_phoff;
        let phnum = self.header.e_phnum as u64;
        let phentsize = self.header.e_phentsize as u64;
        let mut out: Vec<Elf64_Phdr> = Vec::new();
        let mut i: u64 = 0;
        while i < phnum
            invariant
                i <= phnum,
                phoff == self.hdr().e_phoff,
                phnum == self.hdr().e_phnum,
                phentsize == self.hdr().e_phentsize,
                phoff + phnum * phentsize + PHDR_SIZE <= u64::MAX,
                out@.len() == load_segments_upto(self.hdr(), self.data(), i as int).len(),
                forall|k: int|
                    0 <= k < out@.len() ==> is_phdr_at(
                        #[trigger] out@[k],
                        self.data(),
                        load_segments_upto(self.hdr(), self.data(), i as int)[k],
                    ),
            decreases phnum - i,
        {
            assert(i * phentsize + phentsize <= phnum * phentsize) by (nonlinear_arith)
                requires i < phnum, phentsize >= 0;
            let offset = phoff + i * phentsize;
            let len = self.data.len() as u64;
            if offset + phentsize <= len && offset + (PHDR_SIZE as u64) <= len {
                let t = read_u32(self.data, offset as usize);
                if t == PT_LOAD {
                    let p = parse_phdr(self.data, offset as usize);
                    out.push(p);
                }
            }
            i = i + 1;
        }
        out
    }

    /// The file bytes of a segment, or an empty slice when they run past the
    /// image.
    pub fn segment_data(&self, phdr: &Elf64_Phdr) -> (r: &'a [u8])
        requires
            phdr.p_offset + phdr.p_filesz <= u64::MAX,
        ensures
            phdr.p_offset + phdr.p_filesz <= self.data().len() ==> r@ == self.data().subrange(
                phdr.p_offset as int,
                phdr.p_offset + phdr.p_filesz,
            ),
            phdr.p_offset + phdr.p_filesz > self.data().len() ==> r@.len() == 0,
    {
        let start = phdr.p_offset;
        let end = start + phdr.p_filesz;
        if end <= self.data.len() as u64 {
            slice_range(self.data, start as usize, end as usize)
        } else {
            empty_slice(self.data)
        }
    }
}

fn slice_range<'b>(s: &'b [u8], start: usize, end: usize) -> (r: &'b [u8])
    requires
        start <= end <= s@.len(),
    ensures
        r@ == s@.subrange(start as int, end as int),
{
    &s[start..end]
}

fn empty_slice<'b>(s: &'b [u8]) -> (r: &'b [u8])
    ensures
        r@.len() == 0,
{
    &s[0..0]
}

} // verus!

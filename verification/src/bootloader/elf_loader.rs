use vstd::prelude::*;
use vstd::bytes::{
    spec_u16_from_le_bytes,
    spec_u32_from_le_bytes,
    spec_u64_from_le_bytes,
    u16_from_le_bytes,
    u32_from_le_bytes,
    u64_from_le_bytes,
};
use vstd::slice::slice_subrange;

verus! {

/// Size of the ELF64 file header.
pub const ELF_HEADER_SIZE: usize = 64;

/// Size of one ELF64 program header.
pub const PHDR_SIZE: usize = 56;

/// Program header type of a loadable segment.
pub const PT_LOAD: u32 = 1;

/// The ELF64 file header.
#[derive(Debug, Clone, Copy)]
pub struct Elf64Header {
    pub e_ident: [u8; 16],
    pub e_type: u16,
    pub e_machine: u16,
    pub e_version: u32,
    pub e_entry: u64,
    pub e_phoff: u64,
    pub e_shoff: u64,
    pub e_flags: u32,
    pub e_ehsize: u16,
    pub e_phentsize: u16,
    pub e_phnum: u16,
    pub e_shentsize: u16,
    pub e_shnum: u16,
    pub e_shstrndx: u16,
}

/// An ELF64 program header.
#[derive(Debug, Clone, Copy)]
pub struct Elf64Phdr {
    pub p_type: u32,
    pub p_flags: u32,
    pub p_offset: u64,
    pub p_vaddr: u64,
    pub p_paddr: u64,
    pub p_filesz: u64,
    pub p_memsz: u64,
    pub p_align: u64,
}

/// Why an image is not a loadable kernel.
#[derive(Debug, Clone, Copy, PartialEq, Eq, Structural)]
pub enum ElfLoadError {
    /// Fewer bytes were read than a file header takes.
    Truncated,
    /// The file does not start with "\x7FELF".
    BadMagic,
}

pub open spec fn le16(b: Seq<u8>, off: int) -> u16 {
    spec_u16_from_le_bytes(b.subrange(off, off + 2))
}

pub open spec fn le32(b: Seq<u8>, off: int) -> u32 {
    spec_u32_from_le_bytes(b.subrange(off, off + 4))
}

pub open spec fn le64(b: Seq<u8>, off: int) -> u64 {
    spec_u64_from_le_bytes(b.subrange(off, off + 8))
}

/// The file header stored at the start of `b`.
pub open spec fn header_at(b: Seq<u8>) -> Elf64Header {
    Elf64Header {
        e_ident: arbitrary(),
        e_type: le16(b, 16),
        e_machine: le16(b, 18),
        e_version: le32(b, 20),
        e_entry: le64(b, 24),
        e_phoff: le64(b, 32),
        e_shoff: le64(b, 40),
        e_flags: le32(b, 48),
        e_ehsize: le16(b, 52),
        e_phentsize: le16(b, 54),
        e_phnum: le16(b, 56),
        e_shentsize: le16(b, 58),
        e_shnum: le16(b, 60),
        e_shstrndx: le16(b, 62),
    }
}

/// `h` is the file header stored at the start of `b`.
pub open spec fn is_header_of(h: Elf64Header, b: Seq<u8>) -> bool {
    &&& h.e_ident@ == b.subrange(0, 16)
    &&& h == Elf64Header { e_ident: h.e_ident, ..header_at(b) }
}

/// The program header stored at byte `off` of `b`.
pub open spec fn phdr_at(b: Seq<u8>, off: int) -> Elf64Phdr {
    Elf64Phdr {
        p_type: le32(b, off),
        p_flags: le32(b, off + 4),
        p_offset: le64(b, off + 8),
        p_vaddr: le64(b, off + 16),
        p_paddr: le64(b, off + 24),
        p_filesz: le64(b, off + 32),
        p_memsz: le64(b, off + 40),
        p_align: le64(b, off + 48),
    }
}

/// The identification bytes begin with "\x7FELF".
pub open spec fn has_elf_magic(ident: Seq<u8>) -> bool {
    &&& ident[0] == 0x7f
    &&& ident[1] == 0x45
    &&& ident[2] == 0x4c
    &&& ident[3] == 0x46
}

impl Elf64Header {
    /// Decodes the file header at the start of `bytes`.
    pub fn parse(bytes: &[u8]) -> (h: Self)
        requires
            bytes@.len() >= ELF_HEADER_SIZE,
        ensures
            is_header_of(h, bytes@),
    {
        let e_ident: [u8; 16] = [
            bytes[0],
            bytes[1],
            bytes[2],
            bytes[3],
            bytes[4],
            bytes[5],
            bytes[6],
            bytes[7],
            bytes[8],
            bytes[9],
            bytes[10],
            bytes[11],
            bytes[12],
            bytes[13],
            bytes[14],
            bytes[15],
        ];
        assert(e_ident@ =~= bytes@.subrange(0, 16));
        Self {
            e_ident,
            e_type: u16_from_le_bytes(slice_subrange(bytes, 16, 18)),
            e_machine: u16_from_le_bytes(slice_subrange(bytes, 18, 20)),
            e_version: u32_from_le_bytes(slice_subrange(bytes, 20, 24)),
            e_entry: u64_from_le_bytes(slice_subrange(bytes, 24, 32)),
            e_phoff: u64_from_le_bytes(slice_subrange(bytes, 32, 40)),
            e_shoff: u64_from_le_bytes(slice_subrange(bytes, 40, 48)),
            e_flags: u32_from_le_bytes(slice_subrange(bytes, 48, 52)),
            e_ehsize: u16_from_le_bytes(slice_subrange(bytes, 52, 54)),
            e_phentsize: u16_from_le_bytes(slice_subrange(bytes, 54, 56)),
            e_phnum: u16_from_le_bytes(slice_subrange(bytes, 56, 58)),
            e_shentsize: u16_from_le_bytes(slice_subrange(bytes, 58, 60)),
            e_shnum: u16_from_le_bytes(slice_subrange(bytes, 60, 62)),
            e_shstrndx: u16_from_le_bytes(slice_subrange(bytes, 62, 64)),
        }
    }
}

impl Elf64Phdr {
    /// Decodes the program header at byte `offset` of `bytes`.
    pub fn parse(bytes: &[u8], offset: usize) -> (p: Self)
        requires
            offset + PHDR_SIZE <= bytes@.len(),
        ensures
            p == phdr_at(bytes@, offset as int),
    {
        let _len = bytes.len();
        Self {
            p_type: u32_from_le_bytes(slice_subrange(bytes, offset, offset + 4)),
            p_flags: u32_from_le_bytes(slice_subrange(bytes, offset + 4, offset + 8)),
            p_offset: u64_from_le_bytes(slice_subrange(bytes, offset + 8, offset + 16)),
            p_vaddr: u64_from_le_bytes(slice_subrange(bytes, offset + 16, offset + 24)),
            p_paddr: u64_from_le_bytes(slice_subrange(bytes, offset + 24, offset + 32)),
            p_filesz: u64_from_le_bytes(slice_subrange(bytes, offset + 32, offset + 40)),
            p_memsz: u64_from_le_bytes(slice_subrange(bytes, offset + 40, offset + 48)),
            p_align: u64_from_le_bytes(slice_subrange(bytes, offset + 48, offset + 56)),
        }
    }
}

/// Checks the file header of a kernel image of which `read_bytes` bytes were read
/// into `file_buf`.
pub fn check_elf_header(file_buf: &[u8], read_bytes: usize) -> (r: Result<Elf64Header, ElfLoadError>)
    requires
        read_bytes <= file_buf@.len(),
    ensures
        read_bytes < ELF_HEADER_SIZE ==> r == Err::<Elf64Header, ElfLoadError>(
            ElfLoadError::Truncated,
        ),
        read_bytes >= ELF_HEADER_SIZE ==> {
            if has_elf_magic(file_buf@) {
                r is Ok && is_header_of(r->Ok_0, file_buf@)
            } else {
                r == Err::<Elf64Header, ElfLoadError>(ElfLoadError::BadMagic)
            }
        },
{
    if read_bytes < 64 {
        return Err(ElfLoadError::Truncated);
    }
    let header = Elf64Header::parse(file_buf);
    if !(header.e_ident[0] == 0x7f && header.e_ident[1] == 0x45 && header.e_ident[2] == 0x4c
        && header.e_ident[3] == 0x46) {
        return Err(ElfLoadError::BadMagic);
    }
    Ok(header)
}

/// Byte offset of program header `i`.
pub open spec fn phdr_offset(h: Elf64Header, i: int) -> int {
    h.e_phoff + i * PHDR_SIZE
}

/// The loadable program headers among the first `n` of the table, in table order.
pub open spec fn loadable_phdrs(b: Seq<u8>, h: Elf64Header, n: int) -> Seq<Elf64Phdr>
    decreases n,
{
    if n <= 0 {
        Seq::empty()
    } else {
        let prev = loadable_phdrs(b, h, n - 1);
        let p = phdr_at(b, phdr_offset(h, n - 1));
        if p.p_type == PT_LOAD {
            prev.push(p)
        } else {
            prev
        }
    }
}

/// The whole program header table lies inside the buffer.
pub open spec fn phdr_table_in_bounds(b: Seq<u8>, h: Elf64Header) -> bool {
    h.e_phoff + h.e_phnum * PHDR_SIZE <= b.len()
}

/// The loadable segments of the image, in program header order.
pub fn load_segments(file_buf: &[u8], header: &Elf64Header) -> (segs: Vec<Elf64Phdr>)
    requires
        phdr_table_in_bounds(file_buf@, *header),
    ensures
        segs@ == loadable_phdrs(file_buf@, *header, header.e_phnum as int),
{
    let _len = file_buf.len();
    let phdr_size = 56u64;
    let mut segs: Vec<Elf64Phdr> = Vec::new();
    let mut i: u16 = 0;
    while i < header.e_phnum
        invariant
            0 <= i <= header.e_phnum,
            phdr_table_in_bounds(file_buf@, *header),
            file_buf@.len() <= usize::MAX,
            phdr_size == 56,
            segs@ == loadable_phdrs(file_buf@, *header, i as int),
        decreases header.e_phnum - i,
    {
        proof {
            assert(i * 56 <= header.e_phnum * 56) by (nonlinear_arith)
                requires
                    i < header.e_phnum,
            ;
            assert((i + 1) * 56 <= header.e_phnum * 56) by (nonlinear_arith)
                requires
                    i < header.e_phnum,
            ;
        }
        let phdr_offset = (header.e_phoff + (i as u64 * phdr_size)) as usize;
        let phdr = Elf64Phdr::parse(file_buf, phdr_offset);
        if phdr.p_type == PT_LOAD {
            segs.push(phdr);
        }
        i += 1;
    }
    segs
}

/// Number of 4 KiB pages that hold `memsz` bytes.
pub fn segment_pages(memsz: u64) -> (pages: usize)
    requires
        memsz + 4095 <= u64::MAX,
        (memsz + 4095) / 4096 <= usize::MAX,
    ensures
        pages == (memsz + 4095) / 4096,
        pages * 4096 >= memsz,
{
    ((memsz + 4095) / 4096) as usize
}

/// What the segment's memory holds once loaded: its file bytes, then zeros up to
/// its memory size.
pub open spec fn segment_contents(b: Seq<u8>, p: Elf64Phdr) -> Seq<u8> {
    if p.p_filesz > 0 {
        b.subrange(p.p_offset as int, p.p_offset + p.p_filesz).add(
            Seq::new((p.p_memsz - p.p_filesz) as nat, |i: int| 0u8),
        )
    } else {
        Seq::new(p.p_memsz as nat, |i: int| 0u8)
    }
}

/// The segment can be copied: its file bytes lie inside the buffer and fit in its
/// memory size.
pub open spec fn segment_copyable(b: Seq<u8>, p: Elf64Phdr) -> bool {
    &&& p.p_memsz <= usize::MAX
    &&& p.p_filesz > 0 ==> {
        &&& p.p_filesz <= p.p_memsz
        &&& p.p_offset + p.p_filesz <= b.len()
    }
}

/// The bytes to place at the segment's load address.
pub fn segment_image(file_buf: &[u8], phdr: &Elf64Phdr) -> (image: Vec<u8>)
    requires
        segment_copyable(file_buf@, *phdr),
    ensures
        image@ == segment_contents(file_buf@, *phdr),
{
    let _len = file_buf.len();
    let memsz = phdr.p_memsz as usize;
    let mut dest: Vec<u8> = Vec::new();
    let mut j: usize = 0;
    while j < memsz
        invariant
            j <= memsz,
            dest@ == Seq::new(j as nat, |i: int| 0u8),
        decreases memsz - j,
    {
        dest.push(0);
        j += 1;
    }
    let src_offset = phdr.p_offset as usize;
    let filesz = phdr.p_filesz as usize;
    if filesz > 0 {
        proof {
            assert(src_offset == phdr.p_offset);
            assert(filesz == phdr.p_filesz);
        }
        let mut k: usize = 0;
        while k < filesz
            invariant
                0 < filesz <= memsz,
                src_offset == phdr.p_offset,
                filesz == phdr.p_filesz,
                file_buf@.len() <= usize::MAX,
                src_offset + filesz <= file_buf@.len(),
                k <= filesz,
                dest@.len() == memsz,
                forall|i: int| 0 <= i < k ==> #[trigger] dest@[i] == file_buf@[src_offset + i],
                forall|i: int| k <= i < memsz ==> #[trigger] dest@[i] == 0,
            decreases filesz - k,
        {
            dest.set(k, file_buf[src_offset + k]);
            k += 1;
        }
        assert(dest@ =~= segment_contents(file_buf@, *phdr));
    } else {
        assert(dest@ =~= segment_contents(file_buf@, *phdr));
    }
    dest
}

/// A loaded segment fills exactly its memory size: the file bytes come first and
/// every byte after them is zero.
pub proof fn law_segment_fills_memory(b: Seq<u8>, p: Elf64Phdr)
    requires
        segment_copyable(b, p),
    ensures
        segment_contents(b, p).len() == p.p_memsz,
        forall|i: int| 0 <= i < p.p_filesz ==> #[trigger] segment_contents(b, p)[i] == b[p.p_offset + i],
        forall|i: int|
            p.p_filesz <= i < p.p_memsz ==> #[trigger] segment_contents(b, p)[i] == 0,
{
}

/// The first `n` program headers of the table, in order.
pub open spec fn program_headers(b: Seq<u8>, h: Elf64Header, n: int) -> Seq<Elf64Phdr> {
    Seq::new(n as nat, |i: int| phdr_at(b, phdr_offset(h, i)))
}

/// Keeps a program header when its type is `PT_LOAD`.
pub open spec fn is_load_header() -> spec_fn(Elf64Phdr) -> bool {
    |p: Elf64Phdr| p.p_type == PT_LOAD
}

/// The loaded segments are exactly the program headers whose type is `PT_LOAD`,
/// whatever their other fields, in table order: every such header is among them,
/// every one of them is such a header, and there are as many as there are such headers.
pub proof fn law_loads_exactly_the_load_headers(b: Seq<u8>, h: Elf64Header, n: int)
    requires
        0 <= n,
    ensures
        loadable_phdrs(b, h, n) == program_headers(b, h, n).filter(is_load_header()),
        forall|i: int|
            0 <= i < n && (#[trigger] phdr_at(b, phdr_offset(h, i))).p_type == PT_LOAD
                ==> loadable_phdrs(b, h, n).contains(phdr_at(b, phdr_offset(h, i))),
        forall|j: int|
            0 <= j < loadable_phdrs(b, h, n).len() ==> (#[trigger] loadable_phdrs(b, h, n)[j]).p_type
                == PT_LOAD,
    decreases n,
{
    let pred = is_load_header();
    let all = program_headers(b, h, n);
    if n > 0 {
        law_loads_exactly_the_load_headers(b, h, n - 1);
        assert(all.drop_last() =~= program_headers(b, h, n - 1));
        assert(all.last() == phdr_at(b, phdr_offset(h, n - 1)));
        let prev = program_headers(b, h, n - 1);
        let last = phdr_at(b, phdr_offset(h, n - 1));
        assert(all =~= prev.push(last));
        prev.lemma_filter_push(last, pred);
        assert(loadable_phdrs(b, h, n) == all.filter(pred));
    } else {
        assert(all =~= Seq::<Elf64Phdr>::empty());
        reveal(Seq::filter);
        assert(all.filter(pred) =~= Seq::<Elf64Phdr>::empty());
    }
    let res = loadable_phdrs(b, h, n);
    assert forall|i: int|
        0 <= i < n && (#[trigger] phdr_at(b, phdr_offset(h, i))).p_type == PT_LOAD
            implies res.contains(phdr_at(b, phdr_offset(h, i))) by {
        assert(all[i] == phdr_at(b, phdr_offset(h, i)));
        all.lemma_filter_contains(pred, i);
    }
    assert forall|j: int| 0 <= j < res.len() implies (#[trigger] res[j]).p_type == PT_LOAD by {
        all.lemma_filter_pred(pred, j);
    }
}

} // verus!

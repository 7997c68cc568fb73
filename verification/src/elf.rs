//! ELF64 executables: header and program-header parsing, and loading the
//! PT_LOAD segments into a buffer.
use vstd::prelude::*;
use crate::bytes::{le16, le32, le64, read_u16, read_u32, read_u64};

verus! {

pub const ELFCLASS64: u8 = 2;

pub const ELFDATA2LSB: u8 = 1;

pub const ET_EXEC: u16 = 2;

pub const ET_DYN: u16 = 3;

pub const EM_X86_64: u16 = 62;

pub const PT_LOAD: u32 = 1;

/// Size in bytes of an ELF64 file header.
pub const EHDR_SIZE: usize = 64;

/// Size in bytes of an ELF64 program header.
pub const PHDR_SIZE: usize = 56;

#[derive(Clone, Copy)]
pub struct Elf64Header {
    pub e_ident: [u8; 16],
    pub e_type: u16,
    pub e_machine: u16,
    pub e_version: u32,
    pub e_entry: u64,
    pub e_phoff: u64,
    pub e_shoff: u64,
    pub e_flags: u32,
    pub e_ehsize: u16,
    pub e_phentsize: u16,
    pub e_phnum: u16,
    pub e_shentsize: u16,
    pub e_shnum: u16,
    pub e_shstrndx: u16,
}

#[derive(Clone, Copy)]
pub struct Elf64Phdr {
    pub p_type: u32,
    pub p_flags: u32,
    pub p_offset: u64,
    pub p_vaddr: u64,
    pub p_paddr: u64,
    pub p_filesz: u64,
    pub p_memsz: u64,
    pub p_align: u64,
}

#[derive(Debug, Clone, Copy, PartialEq, Eq, Structural)]
pub enum ElfError {
    TooSmall,
    BadMagic,
    Not64Bit,
    NotLittleEndian,
    NotExecutable,
    NotX86_64,
    BadPhdr,
}

/// The first check of the file header that `d` fails, if any.
pub open spec fn elf_check(d: Seq<u8>) -> Option<ElfError> {
    if d.len() < EHDR_SIZE {
        Some(ElfError::TooSmall)
    } else if d[0] != 0x7f || d[1] != 0x45 || d[2] != 0x4c || d[3] != 0x46 {
        Some(ElfError::BadMagic)
    } else if d[4] != ELFCLASS64 {
        Some(ElfError::Not64Bit)
    } else if d[5] != ELFDATA2LSB {
        Some(ElfError::NotLittleEndian)
    } else if le16(d, 16) != ET_EXEC && le16(d, 16) != ET_DYN {
        Some(ElfError::NotExecutable)
    } else if le16(d, 18) != EM_X86_64 {
        Some(ElfError::NotX86_64)
    } else {
        None
    }
}

/// `h` holds the file header fields stored at the start of `d`.
pub open spec fn header_fields(h: Elf64Header, d: Seq<u8>) -> bool {
    &&& h.e_ident@ == d.subrange(0, 16)
    &&& h.e_type == le16(d, 16)
    &&& h.e_machine == le16(d, 18)
    &&& h.e_version == le32(d, 20)
    &&& h.e_entry == le64(d, 24)
    &&& h.e_phoff == le64(d, 32)
    &&& h.e_shoff == le64(d, 40)
    &&& h.e_flags == le32(d, 48)
    &&& h.e_ehsize == le16(d, 52)
    &&& h.e_phentsize == le16(d, 54)
    &&& h.e_phnum == le16(d, 56)
    &&& h.e_shentsize == le16(d, 58)
    &&& h.e_shnum == le16(d, 60)
    &&& h.e_shstrndx == le16(d, 62)
}

/// The program header stored at `off`.
pub open spec fn phdr_at(d: Seq<u8>, off: int) -> Elf64Phdr {
    Elf64Phdr {
        p_type: le32(d, off),
        p_flags: le32(d, off + 4),
        p_offset: le64(d, off + 8),
        p_vaddr: le64(d, off + 16),
        p_paddr: le64(d, off + 24),
        p_filesz: le64(d, off + 32),
        p_memsz: le64(d, off + 40),
        p_align: le64(d, off + 48),
    }
}

/// Whether the program-header table announced by `h` lies inside `d` with
/// entries of at least PHDR_SIZE bytes.
pub open spec fn phdrs_fit(d: Seq<u8>, h: Elf64Header) -> bool {
    &&& (h.e_phoff as usize) + h.e_phnum * h.e_phentsize <= d.len()
    &&& h.e_phentsize >= PHDR_SIZE
}

/// The program headers that `program_headers` reads: `e_phnum` entries,
/// PHDR_SIZE bytes apart, from `e_phoff`.
pub open spec fn phdrs_of(d: Seq<u8>, h: Elf64Header) -> Seq<Elf64Phdr> {
    Seq::new(h.e_phnum as nat, |i: int| phdr_at(d, (h.e_phoff as usize) + i * PHDR_SIZE))
}

/// Checks the file header: size, magic, 64-bit class, little-endian data,
/// executable or shared-object type, x86-64 machine, in that order.
pub fn parse_header(data: &[u8]) -> (r: Result<Elf64Header, ElfError>)
    ensures
        match elf_check(data@) {
            Some(e) => r == Err::<Elf64Header, ElfError>(e),
            None => r matches Ok(h) && header_fields(h, data@),
        },
{
    if data.len() < EHDR_SIZE {
        return Err(ElfError::TooSmall);
    }
    if data[0] != 0x7f || data[1] != 0x45 || data[2] != 0x4c || data[3] != 0x46 {
        return Err(ElfError::BadMagic);
    }
    if data[4] != ELFCLASS64 {
        return Err(ElfError::Not64Bit);
    }
    if data[5] != ELFDATA2LSB {
        return Err(ElfError::NotLittleEndian);
    }
    let e_type = read_u16(data, 16);
    if e_type != ET_EXEC && e_type != ET_DYN {
        return Err(ElfError::NotExecutable);
    }
    let e_machine = read_u16(data, 18);
    if e_machine != EM_X86_64 {
        return Err(ElfError::NotX86_64);
    }
    let mut e_ident = [0u8; 16];
    let mut i: usize = 0;
    while i < 16
        invariant
            i <= 16,
            data@.len() >= EHDR_SIZE,
            forall|k: int| 0 <= k < i ==> e_ident@[k] == data@[k],
        decreases 16 - i,
    {
        e_ident[i] = data[i];
        i += 1;
    }
    assert(e_ident@ =~= data@.subrange(0, 16));
    Ok(Elf64Header {
        e_ident,
        e_type,
        e_machine,
        e_version: read_u32(data, 20),
        e_entry: read_u64(data, 24),
        e_phoff: read_u64(data, 32),
        e_shoff: read_u64(data, 40),
        e_flags: read_u32(data, 48),
        e_ehsize: read_u16(data, 52),
        e_phentsize: read_u16(data, 54),
        e_phnum: read_u16(data, 56),
        e_shentsize: read_u16(data, 58),
        e_shnum: read_u16(data, 60),
        e_shstrndx: read_u16(data, 62),
    })
}

fn read_phdr(data: &[u8], off: usize) -> (r: Elf64Phdr)
    requires
        off + PHDR_SIZE <= data.len(),
    ensures
        r == phdr_at(data@, off as int),
{
    Elf64Phdr {
        p_type: read_u32(data, off),
        p_flags: read_u32(data, off + 4),
        p_offset: read_u64(data, off + 8),
        p_vaddr: read_u64(data, off + 16),
        p_paddr: read_u64(data, off + 24),
        p_filesz: read_u64(data, off + 32),
        p_memsz: read_u64(data, off + 40),
        p_align: read_u64(data, off + 48),
    }
}

/// The program headers of `hdr`; `BadPhdr` when the table runs past the
/// data or its entries are smaller than PHDR_SIZE.
pub fn program_headers(data: &[u8], hdr: &Elf64Header) -> (r: Result<Vec<Elf64Phdr>, ElfError>)
    requires
        (hdr.e_phoff as usize) + hdr.e_phnum * hdr.e_phentsize <= usize::MAX,
    ensures
        !phdrs_fit(data@, *hdr) ==> r == Err::<Vec<Elf64Phdr>, ElfError>(ElfError::BadPhdr),
        phdrs_fit(data@, *hdr) ==> (r matches Ok(v) && v@ == phdrs_of(data@, *hdr)),
{
    let off = hdr.e_phoff as usize;
    let count = hdr.e_phnum as usize;
    let entry_size = hdr.e_phentsize as usize;
    proof {
        assert(count * entry_size <= 65535 * 65535) by (nonlinear_arith)
            requires
                count <= 65535,
                entry_size <= 65535,
        ;
    }
    let total = off + count * entry_size;
    if total > data.len() || entry_size < PHDR_SIZE {
        return Err(ElfError::BadPhdr);
    }
    let mut v: Vec<Elf64Phdr> = Vec::new();
    let mut i: usize = 0;
    while i < count
        invariant
            i <= count,
            count == hdr.e_phnum,
            off == hdr.e_phoff as usize,
            off + count * entry_size <= data.len(),
            entry_size >= PHDR_SIZE,
            v@.len() == i,
            forall|k: int| 0 <= k < i ==> #[trigger] v@[k] == phdrs_of(data@, *hdr)[k],
        decreases count - i,
    {
        proof {
            assert(i * PHDR_SIZE + PHDR_SIZE <= count * entry_size) by (nonlinear_arith)
                requires
                    i < count,
                    entry_size >= PHDR_SIZE,
            ;
        }
        let p = read_phdr(data, off + i * PHDR_SIZE);
        v.push(p);
        i += 1;
    }
    assert(v@ =~= phdrs_of(data@, *hdr));
    Ok(v)
}

// ---------------------------------------------------------------- loading

pub struct LoadedElf {
    pub entry: u64,
    pub load_base: u64,
    pub load_size: usize,
}

pub open spec fn is_load(p: Elf64Phdr) -> bool {
    p.p_type == PT_LOAD
}

/// Least virtual address of the PT_LOAD segments from `i` on, starting from
/// `acc`.
pub open spec fn vmin_from(ps: Seq<Elf64Phdr>, i: nat, acc: u64) -> u64
    decreases ps.len() - i,
{
    if i >= ps.len() {
        acc
    } else if is_load(ps[i as int]) && ps[i as int].p_vaddr < acc {
        vmin_from(ps, i + 1, ps[i as int].p_vaddr)
    } else {
        vmin_from(ps, i + 1, acc)
    }
}

/// Greatest end address (vaddr + memsz) of the PT_LOAD segments from `i`
/// on, starting from `acc`.
pub open spec fn vmax_from(ps: Seq<Elf64Phdr>, i: nat, acc: int) -> int
    decreases ps.len() - i,
{
    if i >= ps.len() {
        acc
    } else if is_load(ps[i as int]) && ps[i as int].p_vaddr + ps[i as int].p_memsz > acc {
        vmax_from(ps, i + 1, ps[i as int].p_vaddr + ps[i as int].p_memsz)
    } else {
        vmax_from(ps, i + 1, acc)
    }
}

/// Every PT_LOAD segment's end address fits in 64 bits.
pub open spec fn ends_fit(ps: Seq<Elf64Phdr>) -> bool {
    forall|i: int| 0 <= i < ps.len() && is_load(#[trigger] ps[i]) ==> ps[i].p_vaddr + ps[i].p_memsz <= u64::MAX
}

/// Copying the file bytes of the PT_LOAD segments from `i` on into `buf`,
/// each to its offset from `vmin`: the flag says whether every segment's
/// file bytes lay inside `d` (copying stops at the first that does not).
pub open spec fn copy_from(d: Seq<u8>, ps: Seq<Elf64Phdr>, i: nat, vmin: u64, buf: Seq<u8>) -> (bool, Seq<u8>)
    decreases ps.len() - i,
{
    if i >= ps.len() {
        (true, buf)
    } else if !is_load(ps[i as int]) {
        copy_from(d, ps, i + 1, vmin, buf)
    } else {
        let p = ps[i as int];
        let src = p.p_offset as usize as int;
        let len = p.p_filesz as usize as int;
        let dst = (p.p_vaddr - vmin) as usize as int;
        if src + len > d.len() {
            (false, buf)
        } else {
            let nb = buf.subrange(0, dst) + d.subrange(src, src + len) + buf.subrange(dst + len, buf.len() as int);
            copy_from(d, ps, i + 1, vmin, nb)
        }
    }
}

/// The copy loop stays clear of overflow and of the buffer's end up to the
/// first segment whose file bytes lie outside `d`.
pub open spec fn copy_safe_from(d: Seq<u8>, ps: Seq<Elf64Phdr>, i: nat, vmin: u64, buf_len: nat) -> bool
    decreases ps.len() - i,
{
    if i >= ps.len() {
        true
    } else if !is_load(ps[i as int]) {
        copy_safe_from(d, ps, i + 1, vmin, buf_len)
    } else {
        let p = ps[i as int];
        let src = p.p_offset as usize as int;
        let len = p.p_filesz as usize as int;
        let dst = (p.p_vaddr - vmin) as usize as int;
        &&& src + len <= usize::MAX
        &&& (src + len <= d.len() ==> dst + len <= buf_len && copy_safe_from(d, ps, i + 1, vmin, buf_len))
    }
}

/// The result of `load_at` and the buffer it leaves, for a buffer whose
/// address is `base`.
pub open spec fn load_outcome(d: Seq<u8>, buf: Seq<u8>, base: u64) -> (Result<(u64, nat), ElfError>, Seq<u8>) {
    match elf_check(d) {
        Some(e) => (Err(e), buf),
        None => {
            let h = Elf64Header {
                e_ident: arbitrary(),
                e_type: le16(d, 16),
                e_machine: le16(d, 18),
                e_version: le32(d, 20),
                e_entry: le64(d, 24),
                e_phoff: le64(d, 32),
                e_shoff: le64(d, 40),
                e_flags: le32(d, 48),
                e_ehsize: le16(d, 52),
                e_phentsize: le16(d, 54),
                e_phnum: le16(d, 56),
                e_shentsize: le16(d, 58),
                e_shnum: le16(d, 60),
                e_shstrndx: le16(d, 62),
            };
            if !phdrs_fit(d, h) {
                (Err(ElfError::BadPhdr), buf)
            } else {
                let ps = phdrs_of(d, h);
                let vmin = vmin_from(ps, 0, u64::MAX);
                let vmax = vmax_from(ps, 0, 0);
                let total = (vmax - vmin) as usize as nat;
                if vmin == u64::MAX || total > buf.len() {
                    (Err(ElfError::BadPhdr), buf)
                } else {
                    let zeroed = Seq::new(total, |k: int| 0u8) + buf.subrange(total as int, buf.len() as int);
                    let (ok, nb) = copy_from(d, ps, 0, vmin, zeroed);
                    if ok {
                        (Ok((le64(d, 24).wrapping_add(base.wrapping_sub(vmin)), total)), nb)
                    } else {
                        (Err(ElfError::BadPhdr), nb)
                    }
                }
            }
        },
    }
}

/// There is a PT_LOAD segment and the span from the lowest segment address
/// to the highest segment end fits in a buffer of `buf_len` bytes.
pub open spec fn span_fits(ps: Seq<Elf64Phdr>, buf_len: nat) -> bool {
    let vmin = vmin_from(ps, 0, u64::MAX);
    &&& vmin != u64::MAX
    &&& (vmax_from(ps, 0, 0) - vmin) as usize as nat <= buf_len
}

/// Inputs on which `load_at` runs to completion: the program-header table's
/// end is computable, every PT_LOAD end address fits in 64 bits, and, once
/// the span is known to fit the buffer, the copies stay inside it.
pub open spec fn load_safe(d: Seq<u8>, buf_len: nat) -> bool {
    elf_check(d) is None ==> {
        let phoff = le64(d, 32) as usize;
        let phnum = le16(d, 56);
        let phent = le16(d, 54);
        &&& phoff + phnum * phent <= usize::MAX
        &&& (phoff + phnum * phent <= d.len() && phent >= PHDR_SIZE) ==> {
            let ps = Seq::new(phnum as nat, |i: int| phdr_at(d, phoff + i * PHDR_SIZE));
            &&& ends_fit(ps)
            &&& span_fits(ps, buf_len) ==> copy_safe_from(d, ps, 0, vmin_from(ps, 0, u64::MAX), buf_len)
        }
    }
}

proof fn lemma_vmin_le(ps: Seq<Elf64Phdr>, i: nat, acc: u64)
    ensures
        vmin_from(ps, i, acc) <= acc,
        forall|k: int| i <= k < ps.len() && is_load(#[trigger] ps[k]) ==> vmin_from(ps, i, acc) <= ps[k].p_vaddr,
        vmin_from(ps, i, acc) == acc || exists|k: int| i <= k < ps.len() && is_load(#[trigger] ps[k]) && ps[k].p_vaddr == vmin_from(ps, i, acc),
    decreases ps.len() - i,
{
    if i < ps.len() {
        if is_load(ps[i as int]) && ps[i as int].p_vaddr < acc {
            lemma_vmin_le(ps, i + 1, ps[i as int].p_vaddr);
        } else {
            lemma_vmin_le(ps, i + 1, acc);
        }
    }
}

proof fn lemma_vmax_ge(ps: Seq<Elf64Phdr>, i: nat, acc: int)
    ensures
        vmax_from(ps, i, acc) >= acc,
        forall|k: int| i <= k < ps.len() && is_load(#[trigger] ps[k]) ==> vmax_from(ps, i, acc) >= ps[k].p_vaddr + ps[k].p_memsz,
        acc <= u64::MAX && ends_fit(ps) ==> vmax_from(ps, i, acc) <= u64::MAX,
    decreases ps.len() - i,
{
    if i < ps.len() {
        if is_load(ps[i as int]) && ps[i as int].p_vaddr + ps[i as int].p_memsz > acc {
            lemma_vmax_ge(ps, i + 1, ps[i as int].p_vaddr + ps[i as int].p_memsz);
        } else {
            lemma_vmax_ge(ps, i + 1, acc);
        }
    }
}

/// Whether `load_at` can run on `data` with a buffer of `buf_len` bytes
/// (see `load_safe`): the program-header table's end is computable, every
/// PT_LOAD segment ends below 2^64, and each segment copy up to the first
/// one whose file bytes lie outside `data` fits in the buffer.
pub fn load_check(data: &[u8], buf_len: usize) -> (r: bool)
    ensures
        r == load_safe(data@, buf_len as nat),
{
    let hdr = match parse_header(data) {
        Ok(h) => h,
        Err(_) => {
            return true;
        },
    };
    let phoff = hdr.e_phoff as usize;
    let phnum = hdr.e_phnum as usize;
    let phent = hdr.e_phentsize as usize;
    assert(phnum * phent <= 65535 * 65535) by (nonlinear_arith)
        requires
            phnum <= 65535,
            phent <= 65535,
    ;
    if phoff > usize::MAX - phnum * phent {
        return false;
    }
    if !(phoff + phnum * phent <= data.len() && phent >= PHDR_SIZE) {
        return true;
    }
    let phdrs = match program_headers(data, &hdr) {
        Ok(p) => p,
        Err(_) => {
            return true;
        },
    };
    let ghost ps = phdrs@;
    assert(ps =~= Seq::new(phnum as nat, |i: int| phdr_at(data@, phoff + i * PHDR_SIZE)));
    assert(load_safe(data@, buf_len as nat) == (ends_fit(ps) && (span_fits(ps, buf_len as nat)
        ==> copy_safe_from(data@, ps, 0, vmin_from(ps, 0, u64::MAX), buf_len as nat)))) by {
        assert(le64(data@, 32) as usize == phoff);
        assert(le16(data@, 56) == phnum);
        assert(le16(data@, 54) == phent);
        let q = Seq::new(
            le16(data@, 56) as nat,
            |i: int| phdr_at(data@, (le64(data@, 32) as usize) + i * PHDR_SIZE),
        );
        assert(q =~= ps);
    }
    let mut i: usize = 0;
    while i < phdrs.len()
        invariant
            load_safe(data@, buf_len as nat) == (ends_fit(ps) && (span_fits(ps, buf_len as nat)
                ==> copy_safe_from(data@, ps, 0, vmin_from(ps, 0, u64::MAX), buf_len as nat))),
            ps == phdrs@,
            i <= ps.len(),
            forall|k: int| 0 <= k < i && is_load(#[trigger] ps[k]) ==> ps[k].p_vaddr + ps[k].p_memsz
                <= u64::MAX,
        decreases ps.len() - i,
    {
        let p = phdrs[i];
        if p.p_type == PT_LOAD && p.p_vaddr > u64::MAX - p.p_memsz {
            assert(is_load(ps[i as int]));
            assert(!ends_fit(ps));
            return false;
        }
        i += 1;
    }
    assert(ends_fit(ps));
    let mut vmin = u64::MAX;
    let mut j: usize = 0;
    while j < phdrs.len()
        invariant
            load_safe(data@, buf_len as nat) == (ends_fit(ps) && (span_fits(ps, buf_len as nat)
                ==> copy_safe_from(data@, ps, 0, vmin_from(ps, 0, u64::MAX), buf_len as nat))),
            ends_fit(ps),
            ps == phdrs@,
            j <= ps.len(),
            vmin_from(ps, j as nat, vmin) == vmin_from(ps, 0, u64::MAX),
        decreases ps.len() - j,
    {
        let p = phdrs[j];
        if p.p_type == PT_LOAD && p.p_vaddr < vmin {
            vmin = p.p_vaddr;
        }
        j += 1;
    }
    let mut vmax = 0u64;
    let mut m: usize = 0;
    while m < phdrs.len()
        invariant
            ends_fit(ps),
            ps == phdrs@,
            m <= ps.len(),
            vmax_from(ps, m as nat, vmax as int) == vmax_from(ps, 0, 0),
        decreases ps.len() - m,
    {
        let p = phdrs[m];
        if p.p_type == PT_LOAD {
            assert(is_load(ps[m as int]));
            let end = p.p_vaddr + p.p_memsz;
            if end > vmax {
                vmax = end;
            }
        }
        m += 1;
    }
    proof {
        lemma_vmin_le(ps, 0, u64::MAX);
        lemma_vmax_ge(ps, 0, 0);
    }
    if vmin == u64::MAX {
        assert(!span_fits(ps, buf_len as nat));
        return true;
    }
    proof {
        let w = choose|w: int| 0 <= w < ps.len() && is_load(#[trigger] ps[w]) && ps[w].p_vaddr == vmin;
        assert(vmax >= ps[w].p_vaddr + ps[w].p_memsz);
    }
    if ((vmax - vmin) as usize) > buf_len {
        assert(!span_fits(ps, buf_len as nat));
        return true;
    }
    assert(span_fits(ps, buf_len as nat));
    let mut k: usize = 0;
    while k < phdrs.len()
        invariant
            load_safe(data@, buf_len as nat) == (ends_fit(ps) && (span_fits(ps, buf_len as nat)
                ==> copy_safe_from(data@, ps, 0, vmin_from(ps, 0, u64::MAX), buf_len as nat))),
            ends_fit(ps),
            ps == phdrs@,
            k <= ps.len(),
            vmin == vmin_from(ps, 0, u64::MAX),
            span_fits(ps, buf_len as nat),
            forall|m: int| 0 <= m < ps.len() && is_load(#[trigger] ps[m]) ==> vmin <= ps[m].p_vaddr,
            copy_safe_from(data@, ps, k as nat, vmin, buf_len as nat) == copy_safe_from(
                data@,
                ps,
                0,
                vmin,
                buf_len as nat,
            ),
        decreases ps.len() - k,
    {
        let p = phdrs[k];
        if p.p_type == PT_LOAD {
            assert(is_load(ps[k as int]));
            let src = p.p_offset as usize;
            let len = p.p_filesz as usize;
            if src > usize::MAX - len {
                assert(!copy_safe_from(data@, ps, k as nat, vmin, buf_len as nat));
                return false;
            }
            if src + len > data.len() {
                assert(copy_safe_from(data@, ps, k as nat, vmin, buf_len as nat));
                return true;
            }
            let dst = (p.p_vaddr - vmin) as usize;
            if len > buf_len || dst > buf_len - len {
                assert(!copy_safe_from(data@, ps, k as nat, vmin, buf_len as nat));
                return false;
            }
            assert(copy_safe_from(data@, ps, k as nat, vmin, buf_len as nat) == copy_safe_from(
                data@,
                ps,
                (k + 1) as nat,
                vmin,
                buf_len as nat,
            ));
        }
        k += 1;
    }
    assert(copy_safe_from(data@, ps, k as nat, vmin, buf_len as nat));
    true
}

/// Loads the PT_LOAD segments of `data` into `buffer`, whose address is
/// `base`: the span from the lowest segment address to the highest segment
/// end is zeroed, then each segment's file bytes are copied to its offset in
/// that span.  The entry point is relocated by `base - lowest address`
/// (modulo 2^64).
pub fn load_at(data: &[u8], buffer: &mut [u8], base: u64) -> (r: Result<LoadedElf, ElfError>)
    requires
        load_safe(data@, old(buffer)@.len()),
    ensures
        final(buffer)@.len() == old(buffer)@.len(),
        final(buffer)@ == load_outcome(data@, old(buffer)@, base).1,
        match load_outcome(data@, old(buffer)@, base).0 {
            Ok((entry, size)) => (r matches Ok(l) && l.entry == entry && l.load_base == base && l.load_size
                == size),
            Err(e) => (r matches Err(e2) && e2 == e),
        },
{
    let hdr = match parse_header(data) {
        Ok(h) => h,
        Err(e) => {
            return Err(e);
        },
    };
    let phdrs = match program_headers(data, &hdr) {
        Ok(p) => p,
        Err(e) => {
            return Err(e);
        },
    };
    let ghost ps = phdrs@;
    let mut vaddr_min = u64::MAX;
    let mut vaddr_max = 0u64;
    let mut i: usize = 0;
    while i < phdrs.len()
        invariant
            ps == phdrs@,
            ends_fit(ps),
            i <= ps.len(),
            vmin_from(ps, i as nat, vaddr_min) == vmin_from(ps, 0, u64::MAX),
            vmax_from(ps, i as nat, vaddr_max as int) == vmax_from(ps, 0, 0),
        decreases ps.len() - i,
    {
        let phdr = phdrs[i];
        if phdr.p_type == PT_LOAD {
            if phdr.p_vaddr < vaddr_min {
                vaddr_min = phdr.p_vaddr;
            }
            let end = phdr.p_vaddr + phdr.p_memsz;
            if end > vaddr_max {
                vaddr_max = end;
            }
        }
        i += 1;
    }
    if vaddr_min == u64::MAX {
        return Err(ElfError::BadPhdr);
    }
    proof {
        lemma_vmin_le(ps, 0, u64::MAX);
        lemma_vmax_ge(ps, 0, 0);
        let k = choose|k: int| 0 <= k < ps.len() && is_load(#[trigger] ps[k]) && ps[k].p_vaddr == vaddr_min;
        assert(vaddr_max >= ps[k].p_vaddr + ps[k].p_memsz);
    }
    let total_size = (vaddr_max - vaddr_min) as usize;
    if total_size > buffer.len() {
        return Err(ElfError::BadPhdr);
    }
    let mut z: usize = 0;
    while z < total_size
        invariant
            z <= total_size,
            total_size <= buffer@.len(),
            buffer@.len() == old(buffer)@.len(),
            forall|k: int| 0 <= k < z ==> buffer@[k] == 0u8,
            forall|k: int| z <= k < buffer@.len() ==> buffer@[k] == old(buffer)@[k],
        decreases total_size - z,
    {
        buffer[z] = 0;
        z += 1;
    }
    let ghost zeroed = Seq::new(total_size as nat, |k: int| 0u8) + old(buffer)@.subrange(
        total_size as int,
        old(buffer)@.len() as int,
    );
    assert(buffer@ =~= zeroed);
    let reloc_offset = base.wrapping_sub(vaddr_min);
    let ghost copy = copy_from(data@, ps, 0, vaddr_min, zeroed);
    let ghost outcome = load_outcome(data@, old(buffer)@, base);
    proof {
        assert(outcome.0 == (if copy.0 {
            Ok::<(u64, nat), ElfError>((hdr.e_entry.wrapping_add(reloc_offset), total_size as nat))
        } else {
            Err::<(u64, nat), ElfError>(ElfError::BadPhdr)
        }));
        assert(outcome.1 == copy.1);
    }
    let mut j: usize = 0;
    while j < phdrs.len()
        invariant
            ps == phdrs@,
            j <= ps.len(),
            buffer@.len() == old(buffer)@.len(),
            copy_safe_from(data@, ps, j as nat, vaddr_min, buffer@.len()),
            copy_from(data@, ps, j as nat, vaddr_min, buffer@) == copy,
            copy == copy_from(data@, ps, 0, vaddr_min, zeroed),
            outcome == load_outcome(data@, old(buffer)@, base),
            outcome.1 == copy.1,
            outcome.0 == (if copy.0 {
                Ok::<(u64, nat), ElfError>((hdr.e_entry.wrapping_add(reloc_offset), total_size as nat))
            } else {
                Err::<(u64, nat), ElfError>(ElfError::BadPhdr)
            }),
            forall|k: int| 0 <= k < ps.len() && is_load(#[trigger] ps[k]) ==> vaddr_min <= ps[k].p_vaddr,
        decreases ps.len() - j,
    {
        let phdr = phdrs[j];
        if phdr.p_type == PT_LOAD {
            let src_off = phdr.p_offset as usize;
            let filesz = phdr.p_filesz as usize;
            let dst_off = (phdr.p_vaddr - vaddr_min) as usize;
            if src_off + filesz > data.len() {
                return Err(ElfError::BadPhdr);
            }
            let ghost before = buffer@;
            let ghost seg = data@.subrange(src_off as int, src_off + filesz);
            let mut k: usize = 0;
            while k < filesz
                invariant
                    k <= filesz,
                    dst_off + filesz <= buffer.len(),
                    src_off + filesz <= data.len(),
                    buffer@.len() == before.len(),
                    forall|q: int| 0 <= q < dst_off ==> buffer@[q] == before[q],
                    seg == data@.subrange(src_off as int, src_off + filesz),
                    forall|q: int| 0 <= q < k ==> #[trigger] seg[q] == buffer@[dst_off + q],
                    forall|q: int| dst_off + k <= q < buffer@.len() ==> buffer@[q] == before[q],
                decreases filesz - k,
            {
                buffer[dst_off + k] = data[src_off + k];
                k += 1;
            }
            assert(buffer@ =~= before.subrange(0, dst_off as int) + data@.subrange(
                src_off as int,
                src_off + filesz,
            ) + before.subrange(dst_off + filesz, before.len() as int));
        }
        j += 1;
    }
    Ok(LoadedElf {
        entry: hdr.e_entry.wrapping_add(reloc_offset),
        load_base: base,
        load_size: total_size,
    })
}

/// Program header `k` of `d`, read where the file header says the table
/// is.
pub open spec fn phdr_k(d: Seq<u8>, k: int) -> Elf64Phdr {
    phdr_at(d, (le64(d, 32) as usize) + k * PHDR_SIZE)
}

/// Where segment `p` goes in the buffer, for lowest address `vmin`.
pub open spec fn seg_dst(p: Elf64Phdr, vmin: u64) -> int {
    (p.p_vaddr - vmin) as usize as int
}

pub open spec fn seg_len(p: Elf64Phdr) -> int {
    p.p_filesz as usize as int
}

pub open spec fn seg_src(p: Elf64Phdr) -> int {
    p.p_offset as usize as int
}

/// The file bytes of segments `p` and `q` go to places that do not overlap.
pub open spec fn segs_apart(p: Elf64Phdr, q: Elf64Phdr, vmin: u64) -> bool {
    ||| seg_len(p) == 0
    ||| seg_len(q) == 0
    ||| seg_dst(p, vmin) + seg_len(p) <= seg_dst(q, vmin)
    ||| seg_dst(q, vmin) + seg_len(q) <= seg_dst(p, vmin)
}

proof fn lemma_copy_len(d: Seq<u8>, ps: Seq<Elf64Phdr>, i: nat, vmin: u64, b: Seq<u8>)
    requires
        copy_safe_from(d, ps, i, vmin, b.len()),
    ensures
        copy_from(d, ps, i, vmin, b).1.len() == b.len(),
    decreases ps.len() - i,
{
    if i < ps.len() {
        if !is_load(ps[i as int]) {
            lemma_copy_len(d, ps, i + 1, vmin, b);
        } else {
            let p = ps[i as int];
            let src = p.p_offset as usize as int;
            let len = p.p_filesz as usize as int;
            let dst = (p.p_vaddr - vmin) as usize as int;
            if src + len <= d.len() {
                let nb = b.subrange(0, dst) + d.subrange(src, src + len) + b.subrange(dst + len, b.len() as int);
                assert(nb.len() == b.len());
                lemma_copy_len(d, ps, i + 1, vmin, nb);
            }
        }
    }
}

/// Copies of segments from `i` on leave the bytes `lo .. hi` alone when
/// none of them goes there.
proof fn lemma_copy_keeps(d: Seq<u8>, ps: Seq<Elf64Phdr>, i: nat, vmin: u64, b: Seq<u8>, lo: int, hi: int)
    requires
        copy_safe_from(d, ps, i, vmin, b.len()),
        0 <= lo <= hi <= b.len(),
        forall|j: int|
            i <= j < ps.len() && is_load(ps[j]) ==> (seg_len(#[trigger] ps[j]) == 0 || lo == hi || seg_dst(
                ps[j],
                vmin,
            ) + seg_len(ps[j]) <= lo || hi <= seg_dst(ps[j], vmin)),
    ensures
        copy_from(d, ps, i, vmin, b).1.subrange(lo, hi) == b.subrange(lo, hi),
    decreases ps.len() - i,
{
    if i < ps.len() {
        if !is_load(ps[i as int]) {
            lemma_copy_keeps(d, ps, i + 1, vmin, b, lo, hi);
        } else {
            let p = ps[i as int];
            let src = p.p_offset as usize as int;
            let len = p.p_filesz as usize as int;
            let dst = (p.p_vaddr - vmin) as usize as int;
            if src + len <= d.len() {
                let nb = b.subrange(0, dst) + d.subrange(src, src + len) + b.subrange(dst + len, b.len() as int);
                assert(nb.len() == b.len());
                assert(nb.subrange(lo, hi) =~= b.subrange(lo, hi));
                lemma_copy_keeps(d, ps, i + 1, vmin, nb, lo, hi);
            }
        }
    }
}

proof fn lemma_copy_places(d: Seq<u8>, ps: Seq<Elf64Phdr>, i: nat, vmin: u64, b: Seq<u8>, k: int)
    requires
        copy_safe_from(d, ps, i, vmin, b.len()),
        copy_from(d, ps, i, vmin, b).0,
        i <= k < ps.len(),
        is_load(ps[k]),
        forall|j: int| k < j < ps.len() && is_load(ps[j]) ==> segs_apart(#[trigger] ps[j], ps[k], vmin),
    ensures
        copy_from(d, ps, i, vmin, b).1.subrange(seg_dst(ps[k], vmin), seg_dst(ps[k], vmin) + seg_len(ps[k]))
            == d.subrange(seg_src(ps[k]), seg_src(ps[k]) + seg_len(ps[k])),
    decreases ps.len() - i,
{
    if !is_load(ps[i as int]) {
        lemma_copy_places(d, ps, i + 1, vmin, b, k);
    } else {
        let p = ps[i as int];
        let src = p.p_offset as usize as int;
        let len = p.p_filesz as usize as int;
        let dst = (p.p_vaddr - vmin) as usize as int;
        let nb = b.subrange(0, dst) + d.subrange(src, src + len) + b.subrange(dst + len, b.len() as int);
        assert(nb.len() == b.len());
        if i < k {
            lemma_copy_places(d, ps, i + 1, vmin, nb, k);
        } else {
            assert(nb.subrange(dst, dst + len) =~= d.subrange(src, src + len));
            assert forall|j: int| i + 1 <= j < ps.len() && is_load(ps[j]) implies (seg_len(#[trigger] ps[j]) == 0
                || dst == dst + len || seg_dst(ps[j], vmin) + seg_len(ps[j]) <= dst || dst + len <= seg_dst(
                ps[j],
                vmin,
            )) by {
                assert(segs_apart(ps[j], ps[k], vmin));
            }
            lemma_copy_keeps(d, ps, i + 1, vmin, nb, dst, dst + len);
        }
    }
}

/// A load that succeeds puts every PT_LOAD segment's file bytes at its
/// offset from the lowest segment address: for program header `k` (read
/// from where the file header says the table is), the buffer bytes from
/// `p_vaddr - vmin` on, `p_filesz` of them, are the file's bytes from
/// `p_offset` on.  Segments whose bytes would land on this one's are
/// left out, since a later copy overwrites an earlier one.
pub proof fn lemma_load_copies_every_segment(d: Seq<u8>, buf: Seq<u8>, base: u64, k: int)
    requires
        load_safe(d, buf.len()),
        load_outcome(d, buf, base).0 is Ok,
        0 <= k < le16(d, 56),
        is_load(phdr_k(d, k)),
        forall|j: int|
            0 <= j < le16(d, 56) && j != k && is_load(#[trigger] phdr_k(d, j)) ==> segs_apart(
                phdr_k(d, j),
                phdr_k(d, k),
                vmin_from(Seq::new(le16(d, 56) as nat, |i: int| phdr_k(d, i)), 0, u64::MAX),
            ),
    ensures
        ({
            let ps = Seq::new(le16(d, 56) as nat, |i: int| phdr_k(d, i));
            let vmin = vmin_from(ps, 0, u64::MAX);
            let p = phdr_k(d, k);
            load_outcome(d, buf, base).1.subrange(seg_dst(p, vmin), seg_dst(p, vmin) + seg_len(p)) == d.subrange(
                seg_src(p),
                seg_src(p) + seg_len(p),
            )
        }),
{
    let ps = Seq::new(le16(d, 56) as nat, |i: int| phdr_k(d, i));
    let h = Elf64Header {
        e_ident: arbitrary(),
        e_type: le16(d, 16),
        e_machine: le16(d, 18),
        e_version: le32(d, 20),
        e_entry: le64(d, 24),
        e_phoff: le64(d, 32),
        e_shoff: le64(d, 40),
        e_flags: le32(d, 48),
        e_ehsize: le16(d, 52),
        e_phentsize: le16(d, 54),
        e_phnum: le16(d, 56),
        e_shentsize: le16(d, 58),
        e_shnum: le16(d, 60),
        e_shstrndx: le16(d, 62),
    };
    assert(phdrs_of(d, h) =~= ps);
    let q = Seq::new(le16(d, 56) as nat, |i: int| phdr_at(d, (le64(d, 32) as usize) + i * PHDR_SIZE));
    assert(q =~= ps);
    let vmin = vmin_from(ps, 0, u64::MAX);
    let vmax = vmax_from(ps, 0, 0);
    let total = (vmax - vmin) as usize as nat;
    let zeroed = Seq::new(total, |i: int| 0u8) + buf.subrange(total as int, buf.len() as int);
    assert(zeroed.len() == buf.len());
    assert(span_fits(ps, buf.len()));
    assert forall|j: int| k < j < ps.len() && is_load(ps[j]) implies segs_apart(#[trigger] ps[j], ps[k], vmin) by {
        assert(ps[j] == phdr_k(d, j));
    }
    lemma_copy_places(d, ps, 0, vmin, zeroed, k);
}

} // verus!

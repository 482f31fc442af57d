//! Guest boot planning: the ELF PT_LOAD plan, the identity page tables, the
//! BootInfo page, the direct 64-bit entry state and the Linux bzImage boot
//! layout. Everything here is a pure function of the kernel bytes and the
//! machine configuration; writing the plan into guest memory and vCPU
//! registers is the caller's part.

use vstd::prelude::*;
use crate::codec::{
    le32, le64, u16_at, u32_at, u64_at, push_bytes, push_le32, push_le64, read_le16, read_le32,
    read_le64,
};
use crate::kvm::MMIO_HOLE_BASE;

pub mod linux_bzimage;
pub mod messages;

verus! {

/// Page-map level-4 table.
pub const PML4_GPA: u64 = 0x1000;

/// Page-directory-pointer table.
pub const PDPT_GPA: u64 = 0x2000;

/// Four consecutive page directories, one per GiB.
pub const PD_BASE_GPA: u64 = 0x3000;

/// BootInfo page (RSI at entry).
pub const BOOTINFO_GPA: u64 = 0x7000;

/// The guest image must sit above the loader's low-RAM structures.
pub const LOW_RAM_RESERVED: u64 = 0x8000;

pub const PAGE_2M: u64 = 0x20_0000;

pub const GIB: u64 = 0x4000_0000;

/// Cmdline cap: the BootInfo page is one 4 KiB page with a 0x20-byte header.
pub const MAX_CMDLINE: usize = 4064;

/// Boot failure.
#[derive(Clone, Debug, PartialEq, Eq)]
pub enum BootError {
    Elf(String),
    Mem(String),
    Kvm(String),
    CmdlineTooLong,
}

/// What the loader placed where.
#[derive(Clone, Copy, Debug, PartialEq, Eq, Structural)]
pub struct BootLayout {
    pub entry: u64,
    pub bootinfo_gpa: u64,
}

/// One PT_LOAD segment: `file_len` bytes of the image at `file_offset` go to
/// guest address `vaddr`, followed by `zero_len` zero bytes.
#[derive(Clone, Copy, Debug, PartialEq, Eq, Structural)]
pub struct LoadSegment {
    pub vaddr: u64,
    pub file_offset: u64,
    pub file_len: u64,
    pub zero_len: u64,
}

/// A parsed ELF64 image: its entry point and its PT_LOAD segments in header
/// order.
#[derive(Clone, Debug)]
pub struct ElfLoad {
    pub entry: u64,
    pub segments: Vec<LoadSegment>,
}

pub open spec fn spec_segment(elf: Seq<u8>, at: int) -> LoadSegment {
    let memsz = u64_at(elf, at + 40);
    let filesz = u64_at(elf, at + 32);
    LoadSegment {
        vaddr: u64_at(elf, at + 16),
        file_offset: u64_at(elf, at + 8),
        file_len: filesz,
        zero_len: if memsz > filesz { (memsz - filesz) as u64 } else { 0 },
    }
}

pub open spec fn prepend_segments(
    front: Seq<LoadSegment>,
    r: Result<Seq<LoadSegment>, Seq<char>>,
) -> Result<Seq<LoadSegment>, Seq<char>> {
    match r {
        Ok(rest) => Ok(front + rest),
        Err(m) => Err(m),
    }
}

/// The PT_LOAD segments of the `n` program headers starting at offset `at`,
/// `step` bytes apart, or the message of the first defect met.
pub open spec fn spec_scan_phdrs(elf: Seq<u8>, at: int, n: nat, step: int) -> Result<
    Seq<LoadSegment>,
    Seq<char>,
>
    decreases n,
{
    if n == 0 {
        Ok(Seq::empty())
    } else if at + 4 > elf.len() {
        Err("truncated phdr"@)
    } else if u32_at(elf, at) != 1 {
        spec_scan_phdrs(elf, at + step, (n - 1) as nat, step)
    } else if at + 48 > elf.len() {
        Err("truncated phdr"@)
    } else {
        let seg = spec_segment(elf, at);
        if seg.vaddr < LOW_RAM_RESERVED {
            Err("PT_LOAD overlaps the loader's low-RAM structures"@)
        } else if seg.file_offset + seg.file_len > u64::MAX {
            Err("phdr overflow"@)
        } else if seg.file_offset + seg.file_len > elf.len() {
            Err("PT_LOAD beyond file end"@)
        } else {
            prepend_segments(seq![seg], spec_scan_phdrs(elf, at + step, (n - 1) as nat, step))
        }
    }
}

pub open spec fn is_elf64_le(elf: Seq<u8>) -> bool {
    &&& elf.len() >= 6
    &&& elf[0] == 0x7f && elf[1] == 0x45 && elf[2] == 0x4c && elf[3] == 0x46
    &&& elf[4] == 2
    &&& elf[5] == 1
}

pub open spec fn is_x86_64_exec(elf: Seq<u8>) -> bool {
    elf.len() >= 20 && u16_at(elf, 16) == 2 && u16_at(elf, 18) == 62
}

/// The load plan of an image: entry point and PT_LOAD segments, or the
/// message of the first defect.
pub open spec fn spec_elf_load(elf: Seq<u8>) -> Result<(u64, Seq<LoadSegment>), Seq<char>> {
    if !is_elf64_le(elf) {
        Err("not a little-endian ELF64"@)
    } else if !is_x86_64_exec(elf) {
        Err("not an x86_64 ET_EXEC image"@)
    } else if elf.len() < 58 {
        Err("truncated header"@)
    } else {
        match spec_scan_phdrs(
            elf,
            u64_at(elf, 32) as int,
            u16_at(elf, 56) as nat,
            u16_at(elf, 54) as int,
        ) {
            Err(m) => Err(m),
            Ok(segs) => if segs.len() == 0 {
                Err("no PT_LOAD segments"@)
            } else {
                Ok((u64_at(elf, 24), segs))
            },
        }
    }
}

pub open spec fn elf_plan_matches(r: Result<ElfLoad, BootError>, elf: Seq<u8>) -> bool {
    match spec_elf_load(elf) {
        Ok((entry, segs)) => r matches Ok(p) && p.entry == entry && p.segments@ == segs,
        Err(m) => r matches Err(BootError::Elf(s)) && s@ == m,
    }
}

fn elf_error(m: &str) -> (e: BootError)
    ensures
        e matches BootError::Elf(s) && s@ == m@,
{
    BootError::Elf(String::from_str(m))
}

proof fn lemma_prepend_push(c: Seq<LoadSegment>, seg: LoadSegment, r: Result<Seq<LoadSegment>, Seq<char>>)
    ensures
        prepend_segments(c, prepend_segments(seq![seg], r)) == prepend_segments(c.push(seg), r),
{
    match r {
        Ok(rest) => {
            assert(c + (seq![seg] + rest) =~= c.push(seg) + rest);
        },
        Err(_) => {},
    }
}

/// Parse an ELF64 x86_64 executable into its load plan: every PT_LOAD
/// segment copies `[p_offset, p_offset + p_filesz)` of the file to `p_vaddr`
/// and zero-fills up to `p_memsz`.
pub fn plan_elf_load(elf: &[u8]) -> (r: Result<ElfLoad, BootError>)
    ensures
        elf_plan_matches(r, elf@),
{
    let len = elf.len();
    if !(len >= 6 && elf[0] == 0x7f && elf[1] == 0x45 && elf[2] == 0x4c && elf[3] == 0x46
        && elf[4] == 2 && elf[5] == 1) {
        return Err(elf_error("not a little-endian ELF64"));
    }
    if !(len >= 20 && read_le16(elf, 16) == 2 && read_le16(elf, 18) == 62) {
        return Err(elf_error("not an x86_64 ET_EXEC image"));
    }
    if len < 58 {
        return Err(elf_error("truncated header"));
    }
    let entry = read_le64(elf, 24);
    let phoff = read_le64(elf, 32);
    let step = read_le16(elf, 54) as u64;
    let n = read_le16(elf, 56);
    let len64 = len as u64;
    let ghost full = spec_scan_phdrs(elf@, phoff as int, n as nat, step as int);
    let mut segments: Vec<LoadSegment> = Vec::new();
    let mut at: u64 = phoff;
    let ghost mut at_int: int = phoff as int;
    let mut i: u16 = 0;
    while i < n
        invariant
            i <= n,
            len64 == elf@.len(),
            len == elf@.len(),
            is_elf64_le(elf@),
            is_x86_64_exec(elf@),
            elf@.len() >= 58,
            phoff == u64_at(elf@, 32),
            n == u16_at(elf@, 56),
            step == u16_at(elf@, 54),
            entry == u64_at(elf@, 24),
            at_int >= 0,
            at == (if at_int > u64::MAX { u64::MAX as int } else { at_int }),
            full == spec_scan_phdrs(elf@, phoff as int, n as nat, step as int),
            full == prepend_segments(
                segments@,
                spec_scan_phdrs(elf@, at_int, (n - i) as nat, step as int),
            ),
        decreases n - i,
    {
        proof {
            lemma_prepend_push(segments@, spec_segment(elf@, at_int), spec_scan_phdrs(elf@, at_int + step, (n - i - 1) as nat, step as int));
        }
        if at > len64 || len64 - at < 4 {
            assert(at_int + 4 > elf@.len());
            assert(spec_scan_phdrs(elf@, at_int, (n - i) as nat, step as int) == Err::<Seq<LoadSegment>, Seq<char>>("truncated phdr"@));
            return Err(elf_error("truncated phdr"));
        }
        assert(at_int == at);
        let p = at as usize;
        let p_type = read_le32(elf, p);
        if p_type == 1 {
            if len64 - at < 48 {
                assert(spec_scan_phdrs(elf@, at_int, (n - i) as nat, step as int) == Err::<Seq<LoadSegment>, Seq<char>>("truncated phdr"@));
                return Err(elf_error("truncated phdr"));
            }
            let p_offset = read_le64(elf, p + 8);
            let p_vaddr = read_le64(elf, p + 16);
            let p_filesz = read_le64(elf, p + 32);
            let p_memsz = read_le64(elf, p + 40);
            if p_vaddr < LOW_RAM_RESERVED {
                return Err(elf_error("PT_LOAD overlaps the loader's low-RAM structures"));
            }
            let end = match p_offset.checked_add(p_filesz) {
                Some(e) => e,
                None => {
                    return Err(elf_error("phdr overflow"));
                },
            };
            if end > len64 {
                return Err(elf_error("PT_LOAD beyond file end"));
            }
            let seg = LoadSegment {
                vaddr: p_vaddr,
                file_offset: p_offset,
                file_len: p_filesz,
                zero_len: p_memsz.saturating_sub(p_filesz),
            };
            assert(seg == spec_segment(elf@, at_int));
            segments.push(seg);
        }
        at = at.saturating_add(step);
        proof {
            at_int = at_int + step;
        }
        i = i + 1;
    }
    assert(spec_scan_phdrs(elf@, at_int, 0, step as int) == Ok::<Seq<LoadSegment>, Seq<char>>(Seq::empty()));
    assert(segments@ + Seq::<LoadSegment>::empty() =~= segments@);
    if segments.len() == 0 {
        return Err(elf_error("no PT_LOAD segments"));
    }
    Ok(ElfLoad { entry, segments })
}


proof fn lemma_scan_segments_in_bounds(elf: Seq<u8>, at: int, n: nat, step: int)
    ensures
        spec_scan_phdrs(elf, at, n, step) matches Ok(segs) ==> forall|i: int|
            0 <= i < segs.len() ==> #[trigger] segs[i].vaddr >= LOW_RAM_RESERVED && segs[i].file_offset
                + segs[i].file_len <= elf.len(),
    decreases n,
{
    if n > 0 {
        lemma_scan_segments_in_bounds(elf, at + step, (n - 1) as nat, step);
    }
}

/// The loader never writes into its own low-RAM structures and never reads
/// past the image: every planned segment starts at or above
/// `LOW_RAM_RESERVED` and its file bytes lie inside the image.
pub proof fn lemma_elf_segments_in_bounds(elf: Seq<u8>)
    ensures
        spec_elf_load(elf) matches Ok((entry, segs)) ==> segs.len() > 0 && forall|i: int|
            0 <= i < segs.len() ==> #[trigger] segs[i].vaddr >= LOW_RAM_RESERVED && segs[i].file_offset
                + segs[i].file_len <= elf.len(),
{
    if is_elf64_le(elf) && is_x86_64_exec(elf) && elf.len() >= 58 {
        let scan = spec_scan_phdrs(
            elf,
            u64_at(elf, 32) as int,
            u16_at(elf, 56) as nat,
            u16_at(elf, 54) as int,
        );
        lemma_scan_segments_in_bounds(
            elf,
            u64_at(elf, 32) as int,
            u16_at(elf, 56) as nat,
            u16_at(elf, 54) as int,
        );
        match scan {
            Ok(segs) => {
                if segs.len() > 0 {
                    assert(spec_elf_load(elf) == Ok::<(u64, Seq<LoadSegment>), Seq<char>>(
                        (u64_at(elf, 24), segs),
                    ));
                }
            },
            Err(_) => {},
        }
    }
}

/// The number of 2 MiB pages that cover `mem_bytes` of RAM.
pub open spec fn ram_pages(mem_bytes: u64) -> nat {
    ((mem_bytes + PAGE_2M - 1) / PAGE_2M as int) as nat
}

/// The page-directory slot of the 2 MiB page that maps the MMIO hole.
pub open spec fn hole_pte_gpa() -> u64 {
    (PD_BASE_GPA + (MMIO_HOLE_BASE / GIB) * 0x1000 + ((MMIO_HOLE_BASE % GIB) / PAGE_2M) * 8) as u64
}

/// PDPT slot `g` points at page directory `g`.
pub open spec fn pdpt_write(g: int) -> (u64, u64) {
    ((PDPT_GPA + g * 8) as u64, ((PD_BASE_GPA + g * 0x1000) as u64) | 0b11)
}

/// The identity mapping of 2 MiB RAM page `p`: present, writable, large.
pub open spec fn ram_pte_write(p: int) -> (u64, u64) {
    ((PD_BASE_GPA + p * 8) as u64, ((p * PAGE_2M) as u64) | 0b1000_0011)
}

/// The page-table writes, as (guest address, little-endian u64 value), in
/// the order they are made: PML4[0], the four PDPT entries, one PD entry per
/// RAM page, and the PD entry of the MMIO hole.
pub open spec fn spec_page_table_writes(mem_bytes: u64) -> Seq<(u64, u64)> {
    seq![(PML4_GPA, PDPT_GPA | 0b11)] + Seq::new(4, |g: int| pdpt_write(g)) + Seq::new(
        ram_pages(mem_bytes),
        |p: int| ram_pte_write(p),
    ) + seq![(hole_pte_gpa(), MMIO_HOLE_BASE | 0b1000_0011)]
}

/// Identity-map `[0, mem_bytes)` with 2 MiB pages plus one 2 MiB page over
/// the MMIO hole. RAM never reaches into the hole, so four page directories
/// cover both.
pub fn page_table_writes(mem_bytes: u64) -> (w: Vec<(u64, u64)>)
    requires
        mem_bytes <= MMIO_HOLE_BASE,
    ensures
        w@ == spec_page_table_writes(mem_bytes),
{
    let mut w: Vec<(u64, u64)> = Vec::new();
    w.push((PML4_GPA, PDPT_GPA | 0b11));
    let ghost head = seq![(PML4_GPA, PDPT_GPA | 0b11)];
    let mut g: u64 = 0;
    while g < 4
        invariant
            g <= 4,
            w@ == head + Seq::new(g as nat, |k: int| pdpt_write(k)),
        decreases 4 - g,
    {
        w.push((PDPT_GPA + g * 8, (PD_BASE_GPA + g * 0x1000) | 0b11));
        g = g + 1;
        assert(w@ =~= head + Seq::new(g as nat, |k: int| pdpt_write(k)));
    }
    let ghost head2 = w@;
    let pages: u64 = if mem_bytes % PAGE_2M == 0 {
        mem_bytes / PAGE_2M
    } else {
        mem_bytes / PAGE_2M + 1
    };
    assert(pages == ram_pages(mem_bytes));
    let mut page: u64 = 0;
    while page < pages
        invariant
            page <= pages,
            pages == ram_pages(mem_bytes),
            pages <= 1664,
            w@ == head2 + Seq::new(page as nat, |p: int| ram_pte_write(p)),
        decreases pages - page,
    {
        let gpa = page * PAGE_2M;
        w.push((PD_BASE_GPA + page * 8, gpa | 0b1000_0011));
        page = page + 1;
        assert(w@ =~= head2 + Seq::new(page as nat, |p: int| ram_pte_write(p)));
    }
    let hole_slot = PD_BASE_GPA + (MMIO_HOLE_BASE / GIB) * 0x1000 + ((MMIO_HOLE_BASE % GIB)
        / PAGE_2M) * 8;
    w.push((hole_slot, MMIO_HOLE_BASE | 0b1000_0011));
    assert(w@ =~= spec_page_table_writes(mem_bytes));
    w
}

/// The canonical BootInfo page: magic "DHBI", version 1, RAM size, MMIO hole
/// base, cmdline length, a zero word, then the cmdline bytes.
pub open spec fn spec_bootinfo_page(mem_bytes: u64, cmdline: Seq<u8>) -> Seq<u8> {
    seq![0x44u8, 0x48u8, 0x42u8, 0x49u8] + le32(1) + le64(mem_bytes) + le64(MMIO_HOLE_BASE)
        + le32(cmdline.len() as u32) + le32(0) + cmdline
}

/// The BootInfo page bytes, or `CmdlineTooLong` when the cmdline does not fit
/// in the page.
pub fn bootinfo_page(mem_bytes: u64, cmdline: &[u8]) -> (r: Result<Vec<u8>, BootError>)
    ensures
        cmdline@.len() > MAX_CMDLINE ==> r == Err::<Vec<u8>, BootError>(BootError::CmdlineTooLong),
        cmdline@.len() <= MAX_CMDLINE ==> (r matches Ok(page) && page@ == spec_bootinfo_page(
            mem_bytes,
            cmdline@,
        )),
{
    if cmdline.len() > MAX_CMDLINE {
        return Err(BootError::CmdlineTooLong);
    }
    let mut page: Vec<u8> = Vec::new();
    page.push(0x44);
    page.push(0x48);
    page.push(0x42);
    page.push(0x49);
    push_le32(&mut page, 1);
    push_le64(&mut page, mem_bytes);
    push_le64(&mut page, MMIO_HOLE_BASE);
    push_le32(&mut page, cmdline.len() as u32);
    push_le32(&mut page, 0);
    push_bytes(&mut page, cmdline);
    assert(page@ =~= spec_bootinfo_page(mem_bytes, cmdline@));
    Ok(page)
}

/// A cached segment descriptor as the vCPU's segment registers hold it.
#[derive(Clone, Copy, Debug, PartialEq, Eq, Structural)]
pub struct SegmentDescriptor {
    pub base: u64,
    pub limit: u32,
    pub selector: u16,
    pub type_: u8,
    pub present: u8,
    pub dpl: u8,
    pub db: u8,
    pub s: u8,
    pub l: u8,
    pub g: u8,
    pub avl: u8,
    pub unusable: u8,
}

/// The vCPU state for direct 64-bit entry: code segment in CS, data segment
/// in DS/ES/FS/GS/SS, control registers, EFER and the entry registers.
#[derive(Clone, Copy, Debug, PartialEq, Eq, Structural)]
pub struct EntryState {
    pub code: SegmentDescriptor,
    pub data: SegmentDescriptor,
    pub cr0: u64,
    pub cr3: u64,
    pub cr4: u64,
    pub efer: u64,
    pub rip: u64,
    pub rsi: u64,
    pub rflags: u64,
}

/// Flat 64-bit code segment: selector 0x08, execute/read accessed, L=1.
pub open spec fn long_mode_code_segment() -> SegmentDescriptor {
    SegmentDescriptor {
        base: 0,
        limit: 0xf_ffff,
        selector: 0x08,
        type_: 0xb,
        present: 1,
        dpl: 0,
        db: 0,
        s: 1,
        l: 1,
        g: 1,
        avl: 0,
        unusable: 0,
    }
}

/// Flat data segment: selector 0x10, read/write accessed, D/B=1.
pub open spec fn long_mode_data_segment() -> SegmentDescriptor {
    SegmentDescriptor { selector: 0x10, type_: 0x3, l: 0, db: 1, ..long_mode_code_segment() }
}

/// Paging with PAE and long mode active, CR3 at the PML4, RIP at the entry
/// point, RSI at the BootInfo page, RFLAGS with only the reserved bit.
pub open spec fn spec_entry_state(entry: u64) -> EntryState {
    EntryState {
        code: long_mode_code_segment(),
        data: long_mode_data_segment(),
        // PG | NE | PE
        cr0: 0x8000_0021,
        cr3: PML4_GPA,
        cr4: 0x20,
        efer: 0x500,
        rip: entry,
        rsi: BOOTINFO_GPA,
        rflags: 2,
    }
}

/// The register state for direct 64-bit entry at `entry`.
pub fn long_mode_entry_state(entry: u64) -> (s: EntryState)
    ensures
        s == spec_entry_state(entry),
{
    let code = SegmentDescriptor {
        base: 0,
        limit: 0xf_ffff,
        selector: 0x08,
        type_: 0xb,
        present: 1,
        dpl: 0,
        db: 0,
        s: 1,
        l: 1,
        g: 1,
        avl: 0,
        unusable: 0,
    };
    let data = SegmentDescriptor { selector: 0x10, type_: 0x3, l: 0, db: 1, ..code };
    EntryState {
        code,
        data,
        cr0: 0x8000_0021,
        cr3: PML4_GPA,
        // PAE
        cr4: 0x20,
        // LME | LMA
        efer: 0x500,
        rip: entry,
        rsi: BOOTINFO_GPA,
        rflags: 2,
    }
}

/// The page tables and the BootInfo page stay in the loader's low RAM: every
/// page-table write lands on its own 8-byte slot between the PML4 and the
/// BootInfo page, and a BootInfo page with an admissible cmdline ends at
/// `LOW_RAM_RESERVED`, below every PT_LOAD segment.
pub proof fn lemma_boot_structures_stay_low(mem_bytes: u64, cmdline: Seq<u8>)
    requires
        mem_bytes <= MMIO_HOLE_BASE,
        cmdline.len() <= MAX_CMDLINE,
    ensures
        forall|i: int|
            0 <= i < spec_page_table_writes(mem_bytes).len() ==> PML4_GPA <= (
            #[trigger] spec_page_table_writes(mem_bytes)[i]).0 && spec_page_table_writes(
                mem_bytes,
            )[i].0 + 8 <= BOOTINFO_GPA,
        forall|i: int, j: int|
            0 <= i < j < spec_page_table_writes(mem_bytes).len() ==> (
            #[trigger] spec_page_table_writes(mem_bytes)[i]).0 != (
            #[trigger] spec_page_table_writes(mem_bytes)[j]).0,
        BOOTINFO_GPA + spec_bootinfo_page(mem_bytes, cmdline).len() <= LOW_RAM_RESERVED,
{
    let w = spec_page_table_writes(mem_bytes);
    let n = ram_pages(mem_bytes);
    assert(n <= 1664);
    assert(w.len() == 6 + n);
    assert(hole_pte_gpa() == 0x6400);
    assert forall|i: int| 0 <= i < w.len() implies (w[i].0 == (if i == 0 {
        PML4_GPA as int
    } else if i < 5 {
        PDPT_GPA + (i - 1) * 8
    } else if i < 5 + n {
        PD_BASE_GPA + (i - 5) * 8
    } else {
        0x6400
    })) by {
        if i == 0 {
        } else if i < 5 {
            assert(w[i] == pdpt_write(i - 1));
        } else if i < 5 + n {
            assert(w[i] == ram_pte_write(i - 5));
        } else {
            assert(w[i] == (hole_pte_gpa(), MMIO_HOLE_BASE | 0b1000_0011));
        }
    }
}

} // verus!

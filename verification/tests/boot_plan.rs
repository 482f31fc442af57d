use dh_vmm::boot::{
    bootinfo_page, long_mode_entry_state, page_table_writes, plan_elf_load, BootError,
    LoadSegment, BOOTINFO_GPA, GIB, MAX_CMDLINE, PAGE_2M, PD_BASE_GPA, PDPT_GPA, PML4_GPA,
};
use dh_vmm::kvm::MMIO_HOLE_BASE;

fn written(writes: &[(u64, u64)], gpa: u64) -> u64 {
    let hits: Vec<u64> = writes.iter().filter(|(g, _)| *g == gpa).map(|(_, v)| *v).collect();
    assert_eq!(hits.len(), 1, "slot {gpa:#x} written {} times", hits.len());
    hits[0]
}

#[test]
fn page_tables_map_ram_and_the_mmio_hole() {
    let writes = page_table_writes(64 << 20);
    assert_eq!(written(&writes, PML4_GPA), PDPT_GPA | 0b11);
    assert_eq!(written(&writes, PDPT_GPA), PD_BASE_GPA | 0b11);
    assert_eq!(written(&writes, PDPT_GPA + 3 * 8), (PD_BASE_GPA + 0x3000) | 0b11);
    assert_eq!(written(&writes, PD_BASE_GPA), 0b1000_0011);
    let last = (64 << 20) / PAGE_2M - 1;
    assert_eq!(
        written(&writes, PD_BASE_GPA + last * 8),
        (last * PAGE_2M) | 0b1000_0011
    );
    let hole_pd = PD_BASE_GPA + (MMIO_HOLE_BASE / GIB) * 0x1000;
    let hole_slot = hole_pd + ((MMIO_HOLE_BASE % GIB) / PAGE_2M) * 8;
    assert_eq!(written(&writes, hole_slot), MMIO_HOLE_BASE | 0b1000_0011);
    assert_eq!(writes.len(), 1 + 4 + 32 + 1);
}

#[test]
fn page_tables_cover_a_partial_last_page() {
    let writes = page_table_writes(3 << 20);
    assert_eq!(writes.len(), 1 + 4 + 2 + 1);
    assert_eq!(written(&writes, PD_BASE_GPA + 8), PAGE_2M | 0b1000_0011);
}

#[test]
fn bootinfo_layout_matches_the_canonical_abi() {
    let page = bootinfo_page(16 << 20, b"42").unwrap();
    assert_eq!(&page[0..4], b"DHBI");
    assert_eq!(u32::from_le_bytes(page[4..8].try_into().unwrap()), 1);
    assert_eq!(u64::from_le_bytes(page[8..16].try_into().unwrap()), 16 << 20);
    assert_eq!(u64::from_le_bytes(page[16..24].try_into().unwrap()), MMIO_HOLE_BASE);
    assert_eq!(u32::from_le_bytes(page[24..28].try_into().unwrap()), 2);
    assert_eq!(&page[0x20..0x22], b"42");
    assert_eq!(page.len(), 0x22);

    assert!(matches!(
        bootinfo_page(16 << 20, &vec![b'x'; MAX_CMDLINE + 1]),
        Err(BootError::CmdlineTooLong)
    ));
    assert_eq!(
        bootinfo_page(16 << 20, &vec![b'x'; MAX_CMDLINE]).unwrap().len() as u64 + BOOTINFO_GPA,
        0x8000
    );
}

fn minimal_elf() -> Vec<u8> {
    let mut elf = vec![0u8; 0x78 + 4];
    elf[0..4].copy_from_slice(b"\x7fELF");
    elf[4] = 2;
    elf[5] = 1;
    elf[16..18].copy_from_slice(&2u16.to_le_bytes());
    elf[18..20].copy_from_slice(&62u16.to_le_bytes());
    elf[24..32].copy_from_slice(&0x10_0000u64.to_le_bytes());
    elf[32..40].copy_from_slice(&0x40u64.to_le_bytes());
    elf[54..56].copy_from_slice(&56u16.to_le_bytes());
    elf[56..58].copy_from_slice(&1u16.to_le_bytes());
    elf[0x40..0x44].copy_from_slice(&1u32.to_le_bytes());
    elf[0x48..0x50].copy_from_slice(&0x78u64.to_le_bytes());
    elf[0x50..0x58].copy_from_slice(&0x10_0000u64.to_le_bytes());
    elf[0x60..0x68].copy_from_slice(&4u64.to_le_bytes());
    elf[0x68..0x70].copy_from_slice(&16u64.to_le_bytes());
    elf[0x78..0x7C].copy_from_slice(&[0xAA, 0xBB, 0xCC, 0xDD]);
    elf
}

fn elf_message(r: Result<dh_vmm::boot::ElfLoad, BootError>) -> String {
    match r {
        Err(BootError::Elf(m)) => m,
        other => panic!("expected an ELF error, got {other:?}"),
    }
}

#[test]
fn elf_loader_copies_and_zero_fills() {
    let elf = minimal_elf();
    let plan = plan_elf_load(&elf).unwrap();
    assert_eq!(plan.entry, 0x10_0000);
    assert_eq!(
        plan.segments,
        vec![LoadSegment {
            vaddr: 0x10_0000,
            file_offset: 0x78,
            file_len: 4,
            zero_len: 12
        }]
    );
    let seg = plan.segments[0];
    let bytes = &elf[seg.file_offset as usize..(seg.file_offset + seg.file_len) as usize];
    assert_eq!(bytes, &[0xAA, 0xBB, 0xCC, 0xDD]);

    let mut low = elf.clone();
    low[0x50..0x58].copy_from_slice(&0x2000u64.to_le_bytes());
    assert!(plan_elf_load(&low).is_err());
    assert!(plan_elf_load(&elf[..0x50]).is_err());
}

#[test]
fn elf_defects_are_named() {
    let elf = minimal_elf();
    assert_eq!(elf_message(plan_elf_load(b"MZ")), "not a little-endian ELF64");
    let mut not_exec = elf.clone();
    not_exec[16] = 3;
    assert_eq!(elf_message(plan_elf_load(&not_exec)), "not an x86_64 ET_EXEC image");
    assert_eq!(elf_message(plan_elf_load(&elf[..40])), "truncated header");
    assert_eq!(elf_message(plan_elf_load(&elf[..0x50])), "truncated phdr");
    let mut low = elf.clone();
    low[0x50..0x58].copy_from_slice(&0x2000u64.to_le_bytes());
    assert_eq!(
        elf_message(plan_elf_load(&low)),
        "PT_LOAD overlaps the loader's low-RAM structures"
    );
    let mut beyond = elf.clone();
    beyond[0x60..0x68].copy_from_slice(&5u64.to_le_bytes());
    assert_eq!(elf_message(plan_elf_load(&beyond)), "PT_LOAD beyond file end");
    let mut overflow = elf.clone();
    overflow[0x60..0x68].copy_from_slice(&u64::MAX.to_le_bytes());
    assert_eq!(elf_message(plan_elf_load(&overflow)), "phdr overflow");
    let mut no_load = elf.clone();
    no_load[0x40..0x44].copy_from_slice(&6u32.to_le_bytes());
    assert_eq!(elf_message(plan_elf_load(&no_load)), "no PT_LOAD segments");
}

#[test]
fn long_mode_entry_points_at_the_image_and_bootinfo() {
    let s = long_mode_entry_state(0x10_0000);
    assert_eq!(s.rip, 0x10_0000);
    assert_eq!(s.rsi, BOOTINFO_GPA);
    assert_eq!(s.rflags, 2);
    assert_eq!(s.cr3, PML4_GPA);
    assert_eq!(s.cr0, 0x8000_0021);
    assert_eq!(s.cr4, 1 << 5);
    assert_eq!(s.efer, (1 << 8) | (1 << 10));
    assert_eq!((s.code.selector, s.code.type_, s.code.l, s.code.db), (0x08, 0xb, 1, 0));
    assert_eq!((s.data.selector, s.data.type_, s.data.l, s.data.db), (0x10, 0x3, 0, 1));
    assert_eq!(s.data.limit, 0xf_ffff);
}

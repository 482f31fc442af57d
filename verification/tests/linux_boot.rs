use dh_vmm::boot::linux_bzimage::{
    align_up, parse_bzimage, plan_bzimage_boot, BzImageError, BzImageLayout, E820Entry,
    LinuxBootLayoutError, LinuxMemoryRange, CMDLINE_SIZE_OFF, CMD_LINE_PTR_OFF, CODE32_START_OFF,
    E820_ENTRY_SIZE, E820_RAM, E820_RESERVED, HARDWARE_SUBARCH_DATA_OFF, HARDWARE_SUBARCH_OFF,
    HEADER_MAGIC_OFF, HEAP_END_PTR_OFF, INITRD_ADDR_MAX_OFF, INIT_SIZE_OFF, KERNEL_ALIGNMENT_OFF,
    LINUX_APIC_MMIO_BASE, LINUX_APIC_MMIO_LEN, LINUX_BOOT_PARAMS_GPA, LINUX_BOOT_PARAMS_SIZE,
    LINUX_CMDLINE_GPA, LINUX_HEAP_END_PTR, LINUX_KERNEL_LOAD_GPA, LINUX_LEGACY_IO_HOLE_BASE,
    LINUX_LEGACY_IO_HOLE_LEN, LINUX_LOW_RESERVED_LEN, LINUX_TYPE_OF_LOADER, LOADFLAGS_CAN_USE_HEAP,
    LOADFLAGS_LOADED_HIGH, LOADFLAGS_OFF, MIN_KERNEL_ALIGNMENT, MIN_PROTOCOL_VERSION, PAGE_SIZE,
    PAYLOAD_LENGTH_OFF, PAYLOAD_OFFSET_OFF, PREF_ADDRESS_OFF, PROTOCOL_VERSION_OFF,
    RAMDISK_IMAGE_OFF, RAMDISK_SIZE_OFF, RELOCATABLE_KERNEL_OFF, SECTOR, SETUP_DATA_OFF,
    SETUP_HEADER_END, SETUP_HEADER_LEN_OFF, SETUP_SECTS_OFF, TYPE_OF_LOADER_OFF,
    XLF_5LEVEL, XLF_5LEVEL_ENABLED, XLF_EFI_HANDOVER_64, XLF_KERNEL_64, XLF_MEM_ENCRYPTION,
    XLOADFLAGS_OFF, XLOADFLAGS_SUPPORTED, ZERO_PAGE_E820_COUNT_OFF, ZERO_PAGE_E820_TABLE_OFF,
};
use dh_vmm::config;
use dh_vmm::kvm::{MMIO_HOLE_BASE, MMIO_HOLE_LEN};

const MEM: u64 = 64 * 1024 * 1024;
const INITRAMFS_LEN: usize = 4096;
const CMDLINE_LEN: usize = 128;
const HEADER_MAGIC: &[u8; 4] = b"HdrS";

fn synthetic_bzimage() -> Vec<u8> {
    let setup_sects = 4u8;
    let setup_bytes = (u64::from(setup_sects) + 1) * SECTOR;
    let payload_offset = 0x400u32;
    let payload_length = 0x800u32;
    let init_size = 0x40_0000u32;
    let total = setup_bytes as usize + payload_offset as usize + payload_length as usize;
    let mut image = vec![0u8; total];
    image[SETUP_SECTS_OFF] = setup_sects;
    image[SETUP_HEADER_LEN_OFF] = (SETUP_HEADER_END - HEADER_MAGIC_OFF) as u8;
    image[0x1fe..0x200].copy_from_slice(&0xaa55u16.to_le_bytes());
    image[0x200..0x202].copy_from_slice(&[0xeb, 0x66]);
    image[HEADER_MAGIC_OFF..HEADER_MAGIC_OFF + 4].copy_from_slice(HEADER_MAGIC);
    image[PROTOCOL_VERSION_OFF..PROTOCOL_VERSION_OFF + 2]
        .copy_from_slice(&MIN_PROTOCOL_VERSION.to_le_bytes());
    image[LOADFLAGS_OFF] = LOADFLAGS_LOADED_HIGH;
    image[INITRD_ADDR_MAX_OFF..INITRD_ADDR_MAX_OFF + 4]
        .copy_from_slice(&0x37ff_ffffu32.to_le_bytes());
    image[KERNEL_ALIGNMENT_OFF..KERNEL_ALIGNMENT_OFF + 4]
        .copy_from_slice(&MIN_KERNEL_ALIGNMENT.to_le_bytes());
    image[RELOCATABLE_KERNEL_OFF] = 1;
    image[XLOADFLAGS_OFF..XLOADFLAGS_OFF + 2].copy_from_slice(&XLF_KERNEL_64.to_le_bytes());
    image[CMDLINE_SIZE_OFF..CMDLINE_SIZE_OFF + 4]
        .copy_from_slice(&(config::MAX_CMDLINE as u32).to_le_bytes());
    image[PAYLOAD_OFFSET_OFF..PAYLOAD_OFFSET_OFF + 4].copy_from_slice(&payload_offset.to_le_bytes());
    image[PAYLOAD_LENGTH_OFF..PAYLOAD_LENGTH_OFF + 4].copy_from_slice(&payload_length.to_le_bytes());
    image[PREF_ADDRESS_OFF..PREF_ADDRESS_OFF + 8].copy_from_slice(&0x20_0000u64.to_le_bytes());
    image[INIT_SIZE_OFF..INIT_SIZE_OFF + 4].copy_from_slice(&init_size.to_le_bytes());
    let payload_start = setup_bytes as usize + payload_offset as usize;
    image[setup_bytes as usize..payload_start].fill(0x5a);
    image[setup_bytes as usize + 0x200] = 0xcc;
    image[payload_start..payload_start + payload_length as usize].fill(0xa5);
    image
}

#[test]
fn linux_bzimage_valid_synthetic_image_parses() {
    let image = synthetic_bzimage();
    let layout = parse_bzimage(&image, INITRAMFS_LEN, CMDLINE_LEN, MEM).unwrap();
    assert_eq!(layout.protocol_version, MIN_PROTOCOL_VERSION);
    assert_eq!(layout.setup_sects, 4);
    assert_eq!(layout.setup_bytes, 5 * SECTOR);
    assert_eq!(layout.kernel_image_file_offset, 5 * SECTOR);
    assert_eq!(layout.kernel_image_length, 0xc00);
    assert_eq!(layout.payload_file_offset, 5 * SECTOR + 0x400);
    assert_eq!(layout.payload_length, 0x800);
    assert_eq!(layout.init_size, 0x40_0000);
    assert_eq!(layout.kernel_alignment, MIN_KERNEL_ALIGNMENT);
    assert!(layout.relocatable_kernel);
    assert_eq!(layout.initrd_addr_max, 0x37ff_ffff);
}

#[test]
fn linux_bzimage_rejects_bad_magic() {
    let mut image = synthetic_bzimage();
    image[HEADER_MAGIC_OFF..HEADER_MAGIC_OFF + 4].copy_from_slice(b"Bad!");
    assert_eq!(
        parse_bzimage(&image, INITRAMFS_LEN, CMDLINE_LEN, MEM),
        Err(BzImageError::BadHeaderMagic { found: *b"Bad!" })
    );
}

#[test]
fn linux_bzimage_rejects_truncated_setup_header() {
    let image = vec![0u8; SETUP_HEADER_END - 1];
    assert_eq!(
        parse_bzimage(&image, INITRAMFS_LEN, CMDLINE_LEN, MEM),
        Err(BzImageError::TruncatedSetupHeader {
            len: SETUP_HEADER_END - 1,
            min: SETUP_HEADER_END
        })
    );
}

#[test]
fn linux_bzimage_rejects_unsupported_protocol_version() {
    let mut image = synthetic_bzimage();
    image[PROTOCOL_VERSION_OFF..PROTOCOL_VERSION_OFF + 2].copy_from_slice(&0x0209u16.to_le_bytes());
    assert_eq!(
        parse_bzimage(&image, INITRAMFS_LEN, CMDLINE_LEN, MEM),
        Err(BzImageError::UnsupportedProtocolVersion {
            found: 0x0209,
            min: MIN_PROTOCOL_VERSION
        })
    );
}

#[test]
fn linux_bzimage_rejects_missing_loaded_high_flag() {
    let mut image = synthetic_bzimage();
    image[LOADFLAGS_OFF] = 0;
    assert_eq!(
        parse_bzimage(&image, INITRAMFS_LEN, CMDLINE_LEN, MEM),
        Err(BzImageError::UnsupportedLoadFlags { loadflags: 0 })
    );
}

#[test]
fn linux_bzimage_rejects_payload_overflow() {
    let mut image = synthetic_bzimage();
    image[PAYLOAD_OFFSET_OFF..PAYLOAD_OFFSET_OFF + 4].copy_from_slice(&u32::MAX.to_le_bytes());
    assert!(matches!(
        parse_bzimage(&image, INITRAMFS_LEN, CMDLINE_LEN, MEM),
        Err(BzImageError::PayloadOutsideImage { .. })
    ));

    let mut image = synthetic_bzimage();
    image[PAYLOAD_LENGTH_OFF..PAYLOAD_LENGTH_OFF + 4].copy_from_slice(&0u32.to_le_bytes());
    assert!(matches!(
        parse_bzimage(&image, INITRAMFS_LEN, CMDLINE_LEN, MEM),
        Err(BzImageError::PayloadOutsideImage { .. })
    ));
}

#[test]
fn linux_bzimage_rejects_short_setup_header_copy_range() {
    let mut image = synthetic_bzimage();
    image[SETUP_HEADER_LEN_OFF] = 0x20;
    assert_eq!(
        parse_bzimage(&image, INITRAMFS_LEN, CMDLINE_LEN, MEM),
        Err(BzImageError::SetupHeaderTooShort {
            end: HEADER_MAGIC_OFF + 0x20,
            min: SETUP_HEADER_END
        })
    );
}

#[test]
fn linux_bzimage_rejects_zero_init_size() {
    let mut image = synthetic_bzimage();
    image[INIT_SIZE_OFF..INIT_SIZE_OFF + 4].copy_from_slice(&0u32.to_le_bytes());
    assert_eq!(
        parse_bzimage(&image, INITRAMFS_LEN, CMDLINE_LEN, MEM),
        Err(BzImageError::BadInitSize { init_size: 0 })
    );
}

#[test]
fn linux_bzimage_rejects_unsupported_xloadflags() {
    let mut image = synthetic_bzimage();
    image[XLOADFLAGS_OFF..XLOADFLAGS_OFF + 2]
        .copy_from_slice(&(XLF_KERNEL_64 | XLF_MEM_ENCRYPTION).to_le_bytes());
    assert_eq!(
        parse_bzimage(&image, INITRAMFS_LEN, CMDLINE_LEN, MEM),
        Err(BzImageError::UnsupportedXloadflags {
            xloadflags: XLF_KERNEL_64 | XLF_MEM_ENCRYPTION,
            supported: XLOADFLAGS_SUPPORTED
        })
    );
}

#[test]
fn linux_bzimage_accepts_known_non_entry_xloadflags() {
    let mut image = synthetic_bzimage();
    image[XLOADFLAGS_OFF..XLOADFLAGS_OFF + 2]
        .copy_from_slice(&(XLF_KERNEL_64 | XLF_EFI_HANDOVER_64).to_le_bytes());
    let layout = parse_bzimage(&image, INITRAMFS_LEN, CMDLINE_LEN, MEM).unwrap();
    assert_eq!(layout.xloadflags, XLF_KERNEL_64 | XLF_EFI_HANDOVER_64);
}

#[test]
fn linux_bzimage_accepts_known_5level_xloadflags() {
    let mut image = synthetic_bzimage();
    image[XLOADFLAGS_OFF..XLOADFLAGS_OFF + 2]
        .copy_from_slice(&(XLF_KERNEL_64 | XLF_5LEVEL | XLF_5LEVEL_ENABLED).to_le_bytes());
    let layout = parse_bzimage(&image, INITRAMFS_LEN, CMDLINE_LEN, MEM).unwrap();
    assert_eq!(layout.xloadflags, XLF_KERNEL_64 | XLF_5LEVEL | XLF_5LEVEL_ENABLED);
}

#[test]
fn linux_bzimage_rejects_bad_kernel_alignment() {
    let mut image = synthetic_bzimage();
    image[KERNEL_ALIGNMENT_OFF..KERNEL_ALIGNMENT_OFF + 4].copy_from_slice(&0x30_0000u32.to_le_bytes());
    assert_eq!(
        parse_bzimage(&image, INITRAMFS_LEN, CMDLINE_LEN, MEM),
        Err(BzImageError::BadKernelAlignment {
            alignment: 0x30_0000
        })
    );
}

#[test]
fn linux_bzimage_rejects_unsupported_relocatable_feature_combination() {
    let mut image = synthetic_bzimage();
    image[PREF_ADDRESS_OFF..PREF_ADDRESS_OFF + 8].copy_from_slice(&0x30_0000u64.to_le_bytes());
    assert_eq!(
        parse_bzimage(&image, INITRAMFS_LEN, CMDLINE_LEN, MEM),
        Err(BzImageError::UnsupportedRelocatableCombination {
            alignment: MIN_KERNEL_ALIGNMENT,
            pref_address: 0x30_0000
        })
    );
}

#[test]
fn linux_bzimage_rejects_initramfs_too_large_for_placement() {
    let image = synthetic_bzimage();
    assert_eq!(
        parse_bzimage(&image, (MEM + 1) as usize, CMDLINE_LEN, MEM),
        Err(BzImageError::InitramfsTooLarge {
            len: MEM + 1,
            limit: MEM
        })
    );
}

#[test]
fn linux_bzimage_rejects_cmdline_too_long() {
    let mut image = synthetic_bzimage();
    image[CMDLINE_SIZE_OFF..CMDLINE_SIZE_OFF + 4].copy_from_slice(&16u32.to_le_bytes());
    assert_eq!(
        parse_bzimage(&image, INITRAMFS_LEN, 17, MEM),
        Err(BzImageError::CmdlineTooLong { len: 17, limit: 16 })
    );
}

#[test]
fn linux_bzimage_rejects_unsupported_setup_header_pointers() {
    let mut image = synthetic_bzimage();
    image[SETUP_DATA_OFF..SETUP_DATA_OFF + 8].copy_from_slice(&0xfeed_cafeu64.to_le_bytes());
    assert_eq!(
        parse_bzimage(&image, INITRAMFS_LEN, CMDLINE_LEN, MEM),
        Err(BzImageError::UnsupportedSetupHeaderField {
            field: "setup_data",
            value: 0xfeed_cafe,
        })
    );

    let mut image = synthetic_bzimage();
    image[HARDWARE_SUBARCH_OFF..HARDWARE_SUBARCH_OFF + 4].copy_from_slice(&1u32.to_le_bytes());
    assert_eq!(
        parse_bzimage(&image, INITRAMFS_LEN, CMDLINE_LEN, MEM),
        Err(BzImageError::UnsupportedSetupHeaderField {
            field: "hardware_subarch",
            value: 1,
        })
    );

    let mut image = synthetic_bzimage();
    image[HARDWARE_SUBARCH_DATA_OFF..HARDWARE_SUBARCH_DATA_OFF + 8]
        .copy_from_slice(&0x1234u64.to_le_bytes());
    assert_eq!(
        parse_bzimage(&image, INITRAMFS_LEN, CMDLINE_LEN, MEM),
        Err(BzImageError::UnsupportedSetupHeaderField {
            field: "hardware_subarch_data",
            value: 0x1234,
        })
    );
}

fn parsed_header() -> BzImageLayout {
    let image = synthetic_bzimage();
    parse_bzimage(&image, INITRAMFS_LEN, CMDLINE_LEN, MEM).unwrap()
}

fn u16_at(bytes: &[u8], at: usize) -> u16 {
    u16::from_le_bytes(bytes[at..at + 2].try_into().unwrap())
}

fn u32_at(bytes: &[u8], at: usize) -> u32 {
    u32::from_le_bytes(bytes[at..at + 4].try_into().unwrap())
}

fn u64_at(bytes: &[u8], at: usize) -> u64 {
    u64::from_le_bytes(bytes[at..at + 8].try_into().unwrap())
}

#[test]
fn linux_boot_layout_pins_gpas_and_non_overlapping_ranges() {
    let header = parsed_header();
    let plan = plan_bzimage_boot(&header, MEM, INITRAMFS_LEN, b"quiet").unwrap();
    let initramfs = plan.layout.initramfs.unwrap();

    assert_eq!(plan.layout.page_tables, LinuxMemoryRange::new(0x1000, 0x6000));
    assert_eq!(
        plan.layout.boot_params,
        LinuxMemoryRange::new(LINUX_BOOT_PARAMS_GPA, 0x1000)
    );
    assert_eq!(plan.layout.cmdline, LinuxMemoryRange::new(LINUX_CMDLINE_GPA, 0x2000));
    assert_eq!(
        plan.layout.kernel_image,
        LinuxMemoryRange::new(LINUX_KERNEL_LOAD_GPA, 0xc00)
    );
    assert_eq!(plan.layout.kernel_image_file_offset, 5 * SECTOR);
    assert_eq!(plan.layout.compressed_payload_file_offset, 5 * SECTOR + 0x400);
    assert_eq!(plan.layout.compressed_payload_length, 0x800);
    assert_eq!(
        initramfs,
        LinuxMemoryRange::new(MEM - PAGE_SIZE, INITRAMFS_LEN as u64)
    );
    assert_eq!(
        plan.layout.device_mmio,
        LinuxMemoryRange::new(MMIO_HOLE_BASE, MMIO_HOLE_LEN)
    );
    assert_eq!(
        plan.layout.apic_mmio,
        LinuxMemoryRange::new(LINUX_APIC_MMIO_BASE, LINUX_APIC_MMIO_LEN)
    );

    let ranges = [
        plan.layout.page_tables,
        plan.layout.boot_params,
        plan.layout.cmdline,
        plan.layout.kernel_image,
        initramfs,
    ];
    for (index, left) in ranges.iter().enumerate() {
        for right in ranges.iter().skip(index + 1) {
            assert!(!left.overlaps(right), "range {left:x?} overlaps {right:x?}");
        }
    }
    for range in ranges {
        assert!(range.end() <= MEM);
        assert!(!range.overlaps(&plan.layout.device_mmio));
        assert!(!range.overlaps(&plan.layout.apic_mmio));
    }
}

#[test]
fn linux_boot_params_encode_e820_cmdline_initramfs_and_kernel() {
    let header = parsed_header();
    let plan = plan_bzimage_boot(&header, MEM, INITRAMFS_LEN, b"quiet").unwrap();
    let initramfs = plan.layout.initramfs.unwrap();
    let kernel_reserved_len = align_up(header.init_size, PAGE_SIZE).unwrap();
    let kernel_reserved_end = LINUX_KERNEL_LOAD_GPA + kernel_reserved_len;

    assert_eq!(
        plan.layout.e820_entries,
        vec![
            E820Entry {
                addr: 0,
                size: LINUX_LOW_RESERVED_LEN,
                kind: E820_RESERVED,
            },
            E820Entry {
                addr: LINUX_LOW_RESERVED_LEN,
                size: LINUX_LEGACY_IO_HOLE_BASE - LINUX_LOW_RESERVED_LEN,
                kind: E820_RAM,
            },
            E820Entry {
                addr: LINUX_LEGACY_IO_HOLE_BASE,
                size: LINUX_LEGACY_IO_HOLE_LEN,
                kind: E820_RESERVED,
            },
            E820Entry {
                addr: LINUX_KERNEL_LOAD_GPA,
                size: kernel_reserved_len,
                kind: E820_RESERVED,
            },
            E820Entry {
                addr: kernel_reserved_end,
                size: initramfs.start - kernel_reserved_end,
                kind: E820_RAM,
            },
            E820Entry {
                addr: initramfs.start,
                size: PAGE_SIZE,
                kind: E820_RESERVED,
            },
            E820Entry {
                addr: MMIO_HOLE_BASE,
                size: MMIO_HOLE_LEN,
                kind: E820_RESERVED,
            },
            E820Entry {
                addr: LINUX_APIC_MMIO_BASE,
                size: LINUX_APIC_MMIO_LEN,
                kind: E820_RESERVED,
            },
        ]
    );

    let page = &plan.boot_params;
    assert_eq!(page[ZERO_PAGE_E820_COUNT_OFF], 8);
    assert_eq!(page[SETUP_SECTS_OFF], 4);
    assert_eq!(u16_at(page, 0x1fe), 0xaa55);
    assert_eq!(&page[0x200..0x202], &[0xeb, 0x66]);
    assert_eq!(&page[HEADER_MAGIC_OFF..HEADER_MAGIC_OFF + 4], b"HdrS");
    assert_eq!(u16_at(page, PROTOCOL_VERSION_OFF), MIN_PROTOCOL_VERSION);
    assert_eq!(page[TYPE_OF_LOADER_OFF], LINUX_TYPE_OF_LOADER);
    assert_eq!(page[LOADFLAGS_OFF], LOADFLAGS_LOADED_HIGH | LOADFLAGS_CAN_USE_HEAP);
    assert_eq!(u32_at(page, CODE32_START_OFF), LINUX_KERNEL_LOAD_GPA as u32);
    assert_eq!(u32_at(page, RAMDISK_IMAGE_OFF), initramfs.start as u32);
    assert_eq!(u32_at(page, RAMDISK_SIZE_OFF), INITRAMFS_LEN as u32);
    assert_eq!(u16_at(page, HEAP_END_PTR_OFF), LINUX_HEAP_END_PTR);
    assert_eq!(u32_at(page, CMD_LINE_PTR_OFF), LINUX_CMDLINE_GPA as u32);
    assert_eq!(u32_at(page, INITRD_ADDR_MAX_OFF), header.initrd_addr_max);
    assert_eq!(u32_at(page, KERNEL_ALIGNMENT_OFF), MIN_KERNEL_ALIGNMENT);
    assert_eq!(page[RELOCATABLE_KERNEL_OFF], 1);
    assert_eq!(u16_at(page, XLOADFLAGS_OFF), XLF_KERNEL_64);
    assert_eq!(u32_at(page, CMDLINE_SIZE_OFF), config::MAX_CMDLINE as u32);
    assert_eq!(u64_at(page, PREF_ADDRESS_OFF), 0x20_0000);
    assert_eq!(u32_at(page, INIT_SIZE_OFF), header.init_size as u32);
    assert_eq!(plan.layout.cmdline_len, 5);
    assert_eq!(plan.cmdline_image, b"quiet\0");

    let first_e820 = ZERO_PAGE_E820_TABLE_OFF;
    assert_eq!(u64_at(page, first_e820), 0);
    assert_eq!(u64_at(page, first_e820 + 8), LINUX_LOW_RESERVED_LEN);
    assert_eq!(u32_at(page, first_e820 + 16), E820_RESERVED);
}

#[test]
fn linux_boot_params_are_zero_filled_outside_contract_fields() {
    let header = parsed_header();
    let plan = plan_bzimage_boot(&header, MEM, INITRAMFS_LEN, b"quiet").unwrap();
    let mut scrubbed = plan.boot_params;
    let setup_header_end = SETUP_SECTS_OFF + header.setup_header.len();
    let e820_end = ZERO_PAGE_E820_TABLE_OFF + plan.layout.e820_entries.len() * E820_ENTRY_SIZE;
    for range in [
        ZERO_PAGE_E820_COUNT_OFF..ZERO_PAGE_E820_COUNT_OFF + 1,
        SETUP_SECTS_OFF..setup_header_end,
        ZERO_PAGE_E820_TABLE_OFF..e820_end,
    ] {
        scrubbed[range].fill(0);
    }
    assert_eq!(scrubbed, [0u8; LINUX_BOOT_PARAMS_SIZE]);
}

#[test]
fn linux_boot_layout_is_stable_byte_for_byte() {
    let header = parsed_header();
    let a = plan_bzimage_boot(&header, MEM, INITRAMFS_LEN, b"quiet").unwrap();
    let b = plan_bzimage_boot(&header, MEM, INITRAMFS_LEN, b"quiet").unwrap();
    assert_eq!(a, b);
}

#[test]
fn linux_boot_layout_rejects_overlap_configurations() {
    let header = parsed_header();
    assert_eq!(
        plan_bzimage_boot(&header, MMIO_HOLE_BASE + PAGE_SIZE, INITRAMFS_LEN, b"quiet"),
        Err(LinuxBootLayoutError::MemOverlapsDeviceWindow {
            mem_bytes: MMIO_HOLE_BASE + PAGE_SIZE,
            device_base: MMIO_HOLE_BASE,
        })
    );
    assert_eq!(
        plan_bzimage_boot(&header, LINUX_APIC_MMIO_BASE + PAGE_SIZE, INITRAMFS_LEN, b"quiet"),
        Err(LinuxBootLayoutError::MemOverlapsApicMmio {
            mem_bytes: LINUX_APIC_MMIO_BASE + PAGE_SIZE,
            apic_base: LINUX_APIC_MMIO_BASE,
        })
    );
    assert_eq!(
        plan_bzimage_boot(&header, LINUX_KERNEL_LOAD_GPA, INITRAMFS_LEN, b"quiet"),
        Err(LinuxBootLayoutError::KernelOutsideRam {
            end: LINUX_KERNEL_LOAD_GPA + header.init_size,
            mem_bytes: LINUX_KERNEL_LOAD_GPA,
        })
    );
    assert!(matches!(
        plan_bzimage_boot(&header, MEM, INITRAMFS_LEN, &vec![b'x'; config::MAX_CMDLINE + 1]),
        Err(LinuxBootLayoutError::CmdlineTooLong { .. })
    ));

    let mut low_initrd_limit = header.clone();
    low_initrd_limit.initrd_addr_max = 0x001f_ffff;
    assert_eq!(
        plan_bzimage_boot(&low_initrd_limit, MEM, 0x10_0000, b"quiet"),
        Err(LinuxBootLayoutError::InitramfsOverlapsKernel {
            start: LINUX_KERNEL_LOAD_GPA,
            kernel_reserved_end: LINUX_KERNEL_LOAD_GPA + header.init_size,
        })
    );
}

#[test]
fn plan_e820_entries_ascend_nonempty_and_match_the_count_byte() {
    let header = parsed_header();
    for (mem, initramfs) in [(MEM, INITRAMFS_LEN), (MEM, 0), (32 * 1024 * 1024 + 4096, 3 * 4096 + 1)] {
        let plan = plan_bzimage_boot(&header, mem, initramfs, b"").unwrap();
        let es = &plan.layout.e820_entries;
        assert!(!es.is_empty() && es.len() <= 128);
        assert!(es.iter().all(|e| e.size > 0));
        for w in es.windows(2) {
            assert!(w[0].addr + w[0].size <= w[1].addr);
        }
        assert_eq!(plan.boot_params[ZERO_PAGE_E820_COUNT_OFF] as usize, es.len());
    }
}

#[test]
fn overlaps_short_circuits_on_a_range_ending_past_u64() {
    let high = LinuxMemoryRange::new(u64::MAX - 10, 100);
    let low = LinuxMemoryRange::new(0, 0x1000);
    assert!(!high.overlaps(&low));
    assert!(low.overlaps(&LinuxMemoryRange::new(0x800, 0x100)));
}

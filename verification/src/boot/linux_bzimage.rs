//! Linux bzImage setup-header parser, deterministic-subset validator and
//! boot-parameter layout planner. It performs no KVM work: it turns kernel
//! bytes and artifact sizes into checked bytes and guest-physical addresses.

use super::{BOOTINFO_GPA, PD_BASE_GPA, PML4_GPA};
use crate::codec::{le16, le32, le64, u16_at, u32_at, u64_at};
use crate::config::MAX_CMDLINE;
use crate::kvm::{MMIO_HOLE_BASE, MMIO_HOLE_LEN};
use vstd::prelude::*;

verus! {

pub const SETUP_SECTS_OFF: usize = 0x1f1;
pub const SETUP_HEADER_LEN_OFF: usize = 0x201;
pub const HEADER_MAGIC_OFF: usize = 0x202;
pub const PROTOCOL_VERSION_OFF: usize = 0x206;
pub const TYPE_OF_LOADER_OFF: usize = 0x210;
pub const LOADFLAGS_OFF: usize = 0x211;
pub const CODE32_START_OFF: usize = 0x214;
pub const RAMDISK_IMAGE_OFF: usize = 0x218;
pub const RAMDISK_SIZE_OFF: usize = 0x21c;
pub const HEAP_END_PTR_OFF: usize = 0x224;
pub const CMD_LINE_PTR_OFF: usize = 0x228;
pub const INITRD_ADDR_MAX_OFF: usize = 0x22c;
pub const KERNEL_ALIGNMENT_OFF: usize = 0x230;
pub const RELOCATABLE_KERNEL_OFF: usize = 0x234;
pub const XLOADFLAGS_OFF: usize = 0x236;
pub const CMDLINE_SIZE_OFF: usize = 0x238;
pub const HARDWARE_SUBARCH_OFF: usize = 0x23c;
pub const HARDWARE_SUBARCH_DATA_OFF: usize = 0x240;
pub const PAYLOAD_OFFSET_OFF: usize = 0x248;
pub const PAYLOAD_LENGTH_OFF: usize = 0x24c;
pub const SETUP_DATA_OFF: usize = 0x250;
pub const PREF_ADDRESS_OFF: usize = 0x258;
pub const INIT_SIZE_OFF: usize = 0x260;
pub const SETUP_HEADER_END: usize = 0x268;

pub const MIN_PROTOCOL_VERSION: u16 = 0x020a;
pub const SECTOR: u64 = 512;
pub const DEFAULT_SETUP_SECTS: u8 = 4;
pub const LOADFLAGS_LOADED_HIGH: u8 = 0x01;
pub const LOADFLAGS_CAN_USE_HEAP: u8 = 0x80;
pub const XLF_KERNEL_64: u16 = 0x0001;
pub const XLF_CAN_BE_LOADED_ABOVE_4G: u16 = 0x0002;
pub const XLF_EFI_HANDOVER_32: u16 = 0x0004;
pub const XLF_EFI_HANDOVER_64: u16 = 0x0008;
pub const XLF_EFI_KEXEC: u16 = 0x0010;
pub const XLF_5LEVEL: u16 = 0x0020;
pub const XLF_5LEVEL_ENABLED: u16 = 0x0040;
pub const XLF_MEM_ENCRYPTION: u16 = 0x0080;
pub const XLOADFLAGS_SUPPORTED: u16 = 0x007f;
pub const MIN_KERNEL_ALIGNMENT: u32 = 0x20_0000;
pub const PAGE_SIZE: u64 = 4096;

pub const LINUX_BOOT_PARAMS_SIZE: usize = 4096;
pub const LINUX_BOOT_PARAMS_GPA: u64 = BOOTINFO_GPA;
pub const LINUX_CMDLINE_GPA: u64 = 0x8000;
pub const LINUX_CMDLINE_RESERVED_LEN: u64 = 0x2000;
pub const LINUX_KERNEL_LOAD_GPA: u64 = 0x10_0000;
pub const LINUX_LEGACY_IO_HOLE_BASE: u64 = 0x0a_0000;
pub const LINUX_LEGACY_IO_HOLE_LEN: u64 = 0x06_0000;
pub const LINUX_APIC_MMIO_BASE: u64 = 0xfee0_0000;
pub const LINUX_APIC_MMIO_LEN: u64 = 0x1000;

pub const LINUX_PAGE_TABLES_GPA: u64 = PML4_GPA;
pub const LINUX_PAGE_TABLES_LEN: u64 = (PD_BASE_GPA + 4 * PAGE_SIZE) - PML4_GPA;
pub const LINUX_LOW_RESERVED_LEN: u64 = LINUX_CMDLINE_GPA + LINUX_CMDLINE_RESERVED_LEN;
pub const LINUX_HEAP_END_PTR: u16 = 0xde00;
pub const LINUX_TYPE_OF_LOADER: u8 = 0xff;
pub const ZERO_PAGE_E820_COUNT_OFF: usize = 0x1e8;
pub const ZERO_PAGE_E820_TABLE_OFF: usize = 0x2d0;
pub const E820_ENTRY_SIZE: usize = 20;
pub const E820_TABLE_CAP: usize = 128;
pub const E820_RAM: u32 = 1;
pub const E820_RESERVED: u32 = 2;

/// The parsed, validated setup header of a bzImage.
#[derive(Clone, Debug, PartialEq, Eq)]
pub struct BzImageLayout {
    pub setup_header: Vec<u8>,
    pub protocol_version: u16,
    pub setup_sects: u8,
    pub setup_bytes: u64,
    pub kernel_image_file_offset: u64,
    pub kernel_image_length: u64,
    pub payload_file_offset: u64,
    pub payload_length: u64,
    pub init_size: u64,
    pub loadflags: u8,
    pub xloadflags: u16,
    pub kernel_alignment: u32,
    pub relocatable_kernel: bool,
    pub pref_address: u64,
    pub initrd_addr_max: u32,
    pub cmdline_size: u32,
}

#[derive(Clone, Debug, PartialEq, Eq)]
pub enum BzImageError {
    TruncatedSetupHeader { len: usize, min: usize },
    BadHeaderMagic { found: [u8; 4] },
    UnsupportedProtocolVersion { found: u16, min: u16 },
    UnsupportedLoadFlags { loadflags: u8 },
    UnsupportedXloadflags { xloadflags: u16, supported: u16 },
    PayloadOverflow,
    PayloadOutsideImage { start: u64, len: u64, image_len: u64 },
    SetupHeaderTooShort { end: usize, min: usize },
    BadInitSize { init_size: u32 },
    BadKernelAlignment { alignment: u32 },
    UnsupportedRelocatableCombination { alignment: u32, pref_address: u64 },
    InitramfsTooLarge { len: u64, limit: u64 },
    CmdlineTooLong { len: usize, limit: usize },
    UnsupportedSetupHeaderField { field: &'static str, value: u64 },
}

/// `HdrS`.
pub open spec fn header_magic() -> Seq<u8> {
    seq![72u8, 100, 114, 83]
}

pub open spec fn is_power_of_two(x: u32) -> bool {
    x != 0 && x & ((x - 1) as u32) == 0
}

/// End of the setup-header copy range the image declares.
pub open spec fn declared_header_end(image: Seq<u8>) -> int {
    HEADER_MAGIC_OFF + image[SETUP_HEADER_LEN_OFF as int]
}

pub open spec fn effective_setup_sects(image: Seq<u8>) -> u8 {
    if image[SETUP_SECTS_OFF as int] == 0 {
        DEFAULT_SETUP_SECTS
    } else {
        image[SETUP_SECTS_OFF as int]
    }
}

pub open spec fn setup_bytes_of(image: Seq<u8>) -> int {
    (effective_setup_sects(image) + 1) * SECTOR
}

pub open spec fn payload_start_of(image: Seq<u8>) -> int {
    setup_bytes_of(image) + u32_at(image, PAYLOAD_OFFSET_OFF as int)
}

pub open spec fn cmdline_limit_of(image: Seq<u8>) -> int {
    if u32_at(image, CMDLINE_SIZE_OFF as int) < MAX_CMDLINE {
        u32_at(image, CMDLINE_SIZE_OFF as int) as int
    } else {
        MAX_CMDLINE as int
    }
}

pub open spec fn placement_limit_of(image: Seq<u8>, mem_bytes: u64) -> int {
    if mem_bytes < u32_at(image, INITRD_ADDR_MAX_OFF as int) + 1 {
        mem_bytes as int
    } else {
        u32_at(image, INITRD_ADDR_MAX_OFF as int) + 1
    }
}

/// The first rule of the deterministic subset that `image` breaks, in the
/// order they are checked; `None` when the image is accepted.
pub open spec fn spec_parse_error(
    image: Seq<u8>,
    initramfs_len: int,
    cmdline_len: int,
    mem_bytes: u64,
) -> Option<BzImageError> {
    let len = image.len();
    if len < SETUP_HEADER_END {
        Some(BzImageError::TruncatedSetupHeader { len: len as usize, min: SETUP_HEADER_END })
    } else if image.subrange(0x202, 0x206) != header_magic() {
        Some(
            BzImageError::BadHeaderMagic {
                found: [image[0x202], image[0x203], image[0x204], image[0x205]],
            },
        )
    } else if u16_at(image, PROTOCOL_VERSION_OFF as int) < MIN_PROTOCOL_VERSION {
        Some(
            BzImageError::UnsupportedProtocolVersion {
                found: u16_at(image, PROTOCOL_VERSION_OFF as int),
                min: MIN_PROTOCOL_VERSION,
            },
        )
    } else if declared_header_end(image) < SETUP_HEADER_END {
        Some(
            BzImageError::SetupHeaderTooShort {
                end: declared_header_end(image) as usize,
                min: SETUP_HEADER_END,
            },
        )
    } else if declared_header_end(image) > len {
        Some(
            BzImageError::TruncatedSetupHeader {
                len: len as usize,
                min: declared_header_end(image) as usize,
            },
        )
    } else if image[LOADFLAGS_OFF as int] & LOADFLAGS_LOADED_HIGH == 0 {
        Some(BzImageError::UnsupportedLoadFlags { loadflags: image[LOADFLAGS_OFF as int] })
    } else if u16_at(image, XLOADFLAGS_OFF as int) & XLF_KERNEL_64 == 0 || u16_at(
        image,
        XLOADFLAGS_OFF as int,
    ) & !XLOADFLAGS_SUPPORTED != 0 {
        Some(
            BzImageError::UnsupportedXloadflags {
                xloadflags: u16_at(image, XLOADFLAGS_OFF as int),
                supported: XLOADFLAGS_SUPPORTED,
            },
        )
    } else if u32_at(image, KERNEL_ALIGNMENT_OFF as int) < MIN_KERNEL_ALIGNMENT || !is_power_of_two(
        u32_at(image, KERNEL_ALIGNMENT_OFF as int),
    ) {
        Some(BzImageError::BadKernelAlignment { alignment: u32_at(image, KERNEL_ALIGNMENT_OFF as int) })
    } else if image[RELOCATABLE_KERNEL_OFF as int] != 0 && u64_at(image, PREF_ADDRESS_OFF as int)
        % (u32_at(image, KERNEL_ALIGNMENT_OFF as int) as u64) != 0 {
        Some(
            BzImageError::UnsupportedRelocatableCombination {
                alignment: u32_at(image, KERNEL_ALIGNMENT_OFF as int),
                pref_address: u64_at(image, PREF_ADDRESS_OFF as int),
            },
        )
    } else if u32_at(image, PAYLOAD_LENGTH_OFF as int) == 0 || payload_start_of(image) + u32_at(
        image,
        PAYLOAD_LENGTH_OFF as int,
    ) > len {
        Some(
            BzImageError::PayloadOutsideImage {
                start: payload_start_of(image) as u64,
                len: u32_at(image, PAYLOAD_LENGTH_OFF as int) as u64,
                image_len: len as u64,
            },
        )
    } else if u32_at(image, INIT_SIZE_OFF as int) == 0 {
        Some(BzImageError::BadInitSize { init_size: 0 })
    } else if u32_at(image, HARDWARE_SUBARCH_OFF as int) != 0 {
        Some(
            BzImageError::UnsupportedSetupHeaderField {
                field: "hardware_subarch",
                value: u32_at(image, HARDWARE_SUBARCH_OFF as int) as u64,
            },
        )
    } else if u64_at(image, HARDWARE_SUBARCH_DATA_OFF as int) != 0 {
        Some(
            BzImageError::UnsupportedSetupHeaderField {
                field: "hardware_subarch_data",
                value: u64_at(image, HARDWARE_SUBARCH_DATA_OFF as int),
            },
        )
    } else if u64_at(image, SETUP_DATA_OFF as int) != 0 {
        Some(
            BzImageError::UnsupportedSetupHeaderField {
                field: "setup_data",
                value: u64_at(image, SETUP_DATA_OFF as int),
            },
        )
    } else if cmdline_len > cmdline_limit_of(image) {
        Some(
            BzImageError::CmdlineTooLong {
                len: cmdline_len as usize,
                limit: cmdline_limit_of(image) as usize,
            },
        )
    } else if initramfs_len > placement_limit_of(image, mem_bytes) {
        Some(
            BzImageError::InitramfsTooLarge {
                len: initramfs_len as u64,
                limit: placement_limit_of(image, mem_bytes) as u64,
            },
        )
    } else {
        None
    }
}

/// `l` is the layout read from an accepted `image`.
pub open spec fn layout_of_image(l: BzImageLayout, image: Seq<u8>) -> bool {
    &&& l.setup_header@ == image.subrange(SETUP_SECTS_OFF as int, declared_header_end(image))
    &&& l.protocol_version == u16_at(image, PROTOCOL_VERSION_OFF as int)
    &&& l.setup_sects == effective_setup_sects(image)
    &&& l.setup_bytes == setup_bytes_of(image)
    &&& l.kernel_image_file_offset == setup_bytes_of(image)
    &&& l.kernel_image_length == image.len() - setup_bytes_of(image)
    &&& l.payload_file_offset == payload_start_of(image)
    &&& l.payload_length == u32_at(image, PAYLOAD_LENGTH_OFF as int)
    &&& l.init_size == u32_at(image, INIT_SIZE_OFF as int)
    &&& l.loadflags == image[LOADFLAGS_OFF as int]
    &&& l.xloadflags == u16_at(image, XLOADFLAGS_OFF as int)
    &&& l.kernel_alignment == u32_at(image, KERNEL_ALIGNMENT_OFF as int)
    &&& l.relocatable_kernel == (image[RELOCATABLE_KERNEL_OFF as int] != 0)
    &&& l.pref_address == u64_at(image, PREF_ADDRESS_OFF as int)
    &&& l.initrd_addr_max == u32_at(image, INITRD_ADDR_MAX_OFF as int)
    &&& l.cmdline_size == u32_at(image, CMDLINE_SIZE_OFF as int)
}

fn reject_unsupported_header_field(field: &'static str, value: u64) -> (r: Result<(), BzImageError>)
    ensures
        value == 0 ==> r == Ok::<(), BzImageError>(()),
        value != 0 ==> r == Err::<(), BzImageError>(
            BzImageError::UnsupportedSetupHeaderField { field, value },
        ),
{
    if value == 0 {
        Ok(())
    } else {
        Err(BzImageError::UnsupportedSetupHeaderField { field, value })
    }
}

fn u16le(bytes: &[u8], at: usize) -> (r: u16)
    requires
        at + 2 <= bytes@.len(),
    ensures
        r == u16_at(bytes@, at as int),
{
    crate::codec::read_le16(bytes, at)
}

fn u32le(bytes: &[u8], at: usize) -> (r: u32)
    requires
        at + 4 <= bytes@.len(),
    ensures
        r == u32_at(bytes@, at as int),
{
    crate::codec::read_le32(bytes, at)
}

fn u64le(bytes: &[u8], at: usize) -> (r: u64)
    requires
        at + 8 <= bytes@.len(),
    ensures
        r == u64_at(bytes@, at as int),
{
    crate::codec::read_le64(bytes, at)
}

/// Parse and validate the setup header of `image` against the
/// deterministic subset, given the sizes of the initramfs and command line
/// it will boot with and the guest memory size.
pub fn parse_bzimage(image: &[u8], initramfs_len: usize, cmdline_len: usize, mem_bytes: u64) -> (r:
    Result<BzImageLayout, BzImageError>)
    ensures
        match spec_parse_error(image@, initramfs_len as int, cmdline_len as int, mem_bytes) {
            Some(e) => r == Err::<BzImageLayout, BzImageError>(e),
            None => r matches Ok(l) && layout_of_image(l, image@),
        },
{
    let ghost img = image@;
    let n = image.len();
    if n < SETUP_HEADER_END {
        return Err(BzImageError::TruncatedSetupHeader { len: n, min: SETUP_HEADER_END });
    }
    let found: [u8; 4] = [image[0x202], image[0x203], image[0x204], image[0x205]];
    if !(found[0] == 72 && found[1] == 100 && found[2] == 114 && found[3] == 83) {
        proof {
            if img.subrange(0x202, 0x206) == header_magic() {
                assert(img.subrange(0x202, 0x206)[0] == img[0x202]);
                assert(img.subrange(0x202, 0x206)[1] == img[0x203]);
                assert(img.subrange(0x202, 0x206)[2] == img[0x204]);
                assert(img.subrange(0x202, 0x206)[3] == img[0x205]);
            }
        }
        return Err(BzImageError::BadHeaderMagic { found });
    }
    assert(img.subrange(0x202, 0x206) =~= header_magic());
    let protocol_version = u16le(image, PROTOCOL_VERSION_OFF);
    if protocol_version < MIN_PROTOCOL_VERSION {
        return Err(
            BzImageError::UnsupportedProtocolVersion {
                found: protocol_version,
                min: MIN_PROTOCOL_VERSION,
            },
        );
    }
    let setup_header_end = HEADER_MAGIC_OFF + image[SETUP_HEADER_LEN_OFF] as usize;
    if setup_header_end < SETUP_HEADER_END {
        return Err(
            BzImageError::SetupHeaderTooShort { end: setup_header_end, min: SETUP_HEADER_END },
        );
    }
    if setup_header_end > n {
        return Err(BzImageError::TruncatedSetupHeader { len: n, min: setup_header_end });
    }
    let setup_header = crate::codec::copy_range(image, SETUP_SECTS_OFF, setup_header_end);
    let setup_sects_raw = image[SETUP_SECTS_OFF];
    let setup_sects = if setup_sects_raw == 0 {
        DEFAULT_SETUP_SECTS
    } else {
        setup_sects_raw
    };
    let setup_bytes: u64 = (setup_sects as u64 + 1) * SECTOR;
    let loadflags = image[LOADFLAGS_OFF];
    if loadflags & LOADFLAGS_LOADED_HIGH == 0 {
        return Err(BzImageError::UnsupportedLoadFlags { loadflags });
    }
    let xloadflags = u16le(image, XLOADFLAGS_OFF);
    if xloadflags & XLF_KERNEL_64 == 0 || xloadflags & !XLOADFLAGS_SUPPORTED != 0 {
        return Err(
            BzImageError::UnsupportedXloadflags { xloadflags, supported: XLOADFLAGS_SUPPORTED },
        );
    }
    let kernel_alignment = u32le(image, KERNEL_ALIGNMENT_OFF);
    if kernel_alignment < MIN_KERNEL_ALIGNMENT || kernel_alignment & (kernel_alignment - 1) != 0 {
        return Err(BzImageError::BadKernelAlignment { alignment: kernel_alignment });
    }
    let relocatable_kernel = image[RELOCATABLE_KERNEL_OFF] != 0;
    let pref_address = u64le(image, PREF_ADDRESS_OFF);
    if relocatable_kernel && pref_address % (kernel_alignment as u64) != 0 {
        return Err(
            BzImageError::UnsupportedRelocatableCombination {
                alignment: kernel_alignment,
                pref_address,
            },
        );
    }
    let payload_offset = u32le(image, PAYLOAD_OFFSET_OFF) as u64;
    let payload_length = u32le(image, PAYLOAD_LENGTH_OFF) as u64;
    let payload_file_offset = setup_bytes + payload_offset;
    let payload_end = payload_file_offset + payload_length;
    let image_len = n as u64;
    if payload_length == 0 || payload_end > image_len {
        return Err(
            BzImageError::PayloadOutsideImage {
                start: payload_file_offset,
                len: payload_length,
                image_len,
            },
        );
    }
    if image_len < setup_bytes {
        return Err(
            BzImageError::PayloadOutsideImage { start: setup_bytes, len: image_len, image_len },
        );
    }
    let kernel_image_length = image_len - setup_bytes;
    if kernel_image_length == 0 {
        return Err(BzImageError::PayloadOutsideImage { start: setup_bytes, len: 0, image_len });
    }
    let init_size = u32le(image, INIT_SIZE_OFF);
    if init_size == 0 {
        return Err(BzImageError::BadInitSize { init_size });
    }
    match reject_unsupported_header_field(
        "hardware_subarch",
        u32le(image, HARDWARE_SUBARCH_OFF) as u64,
    ) {
        Err(e) => return Err(e),
        Ok(_) => {},
    }
    match reject_unsupported_header_field(
        "hardware_subarch_data",
        u64le(image, HARDWARE_SUBARCH_DATA_OFF),
    ) {
        Err(e) => return Err(e),
        Ok(_) => {},
    }
    match reject_unsupported_header_field("setup_data", u64le(image, SETUP_DATA_OFF)) {
        Err(e) => return Err(e),
        Ok(_) => {},
    }
    let cmdline_size = u32le(image, CMDLINE_SIZE_OFF);
    let cmdline_limit: usize = if (cmdline_size as usize) < MAX_CMDLINE {
        cmdline_size as usize
    } else {
        MAX_CMDLINE
    };
    if cmdline_len > cmdline_limit {
        return Err(BzImageError::CmdlineTooLong { len: cmdline_len, limit: cmdline_limit });
    }
    let initrd_addr_max = u32le(image, INITRD_ADDR_MAX_OFF);
    let initrd_addr_limit = initrd_addr_max as u64 + 1;
    let placement_limit = if mem_bytes < initrd_addr_limit {
        mem_bytes
    } else {
        initrd_addr_limit
    };
    let initramfs_len = initramfs_len as u64;
    if initramfs_len > placement_limit {
        return Err(BzImageError::InitramfsTooLarge { len: initramfs_len, limit: placement_limit });
    }
    Ok(
        BzImageLayout {
            setup_header,
            protocol_version,
            setup_sects,
            setup_bytes,
            kernel_image_file_offset: setup_bytes,
            kernel_image_length,
            payload_file_offset,
            payload_length,
            init_size: init_size as u64,
            loadflags,
            xloadflags,
            kernel_alignment,
            relocatable_kernel,
            pref_address,
            initrd_addr_max,
            cmdline_size,
        },
    )
}


/// A guest-physical range `[start, start + len)`.
#[derive(Clone, Copy, Debug, PartialEq, Eq, Structural)]
pub struct LinuxMemoryRange {
    pub start: u64,
    pub len: u64,
}

impl LinuxMemoryRange {
    pub open spec fn spec_end(self) -> int {
        self.start + self.len
    }

    /// Two ranges share an address.
    pub open spec fn spec_overlaps(self, other: Self) -> bool {
        self.start < other.spec_end() && other.start < self.spec_end()
    }

    pub fn new(start: u64, len: u64) -> (r: Self)
        ensures
            r.start == start && r.len == len,
    {
        LinuxMemoryRange { start, len }
    }

    pub fn end(&self) -> (r: u64)
        requires
            self.spec_end() <= u64::MAX,
        ensures
            r == self.spec_end(),
    {
        self.start + self.len
    }

    pub fn is_empty(&self) -> (r: bool)
        ensures
            r == (self.len == 0),
    {
        self.len == 0
    }

    pub fn overlaps(&self, other: &Self) -> (r: bool)
        requires
            other.spec_end() <= u64::MAX,
            self.start < other.spec_end() ==> self.spec_end() <= u64::MAX,
        ensures
            r == self.spec_overlaps(*other),
    {
        self.start < other.end() && other.start < self.end()
    }
}

#[derive(Clone, Copy, Debug, PartialEq, Eq, Structural)]
pub struct E820Entry {
    pub addr: u64,
    pub size: u64,
    pub kind: u32,
}

#[derive(Clone, Debug, PartialEq, Eq)]
pub struct LinuxBootLayout {
    pub page_tables: LinuxMemoryRange,
    pub boot_params: LinuxMemoryRange,
    pub cmdline: LinuxMemoryRange,
    pub cmdline_len: u32,
    pub kernel_image: LinuxMemoryRange,
    pub kernel_image_file_offset: u64,
    pub compressed_payload_file_offset: u64,
    pub compressed_payload_length: u64,
    pub initramfs: Option<LinuxMemoryRange>,
    pub device_mmio: LinuxMemoryRange,
    pub apic_mmio: LinuxMemoryRange,
    pub e820_entries: Vec<E820Entry>,
}

#[derive(Clone, Debug, PartialEq, Eq)]
pub struct LinuxBootPlan {
    pub layout: LinuxBootLayout,
    pub boot_params: [u8; 4096],
    /// Command-line bytes written at `layout.cmdline.start`, including the
    /// trailing NUL byte Linux requires.
    pub cmdline_image: Vec<u8>,
}

#[derive(Clone, Debug, PartialEq, Eq)]
pub enum LinuxBootLayoutError {
    CmdlineTooLong { len: usize, limit: usize },
    MemOverlapsApicMmio { mem_bytes: u64, apic_base: u64 },
    MemOverlapsDeviceWindow { mem_bytes: u64, device_base: u64 },
    RangeOverflow { label: &'static str },
    KernelOutsideRam { end: u64, mem_bytes: u64 },
    InitramfsTooLarge { len: u64, limit: u64 },
    InitramfsOverlapsKernel { start: u64, kernel_reserved_end: u64 },
    E820TooManyEntries { count: usize, max: usize },
}

/// `v` rounded up to a multiple of the page size.
pub open spec fn page_up(v: int) -> int {
    (v + 4095) / 4096 * 4096
}

/// `v` rounded down to a multiple of the page size.
pub open spec fn page_down(v: int) -> int {
    v / 4096 * 4096
}

/// Round `value` up to `align` (a power of two) with the mask trick;
/// refused when `value + align - 1` does not fit in u64.
pub fn align_up(value: u64, align: u64) -> (r: Result<u64, LinuxBootLayoutError>)
    requires
        align > 0,
    ensures
        value + (align - 1) > u64::MAX ==> r == Err::<u64, LinuxBootLayoutError>(
            LinuxBootLayoutError::RangeOverflow { label: "align_up" },
        ),
        value + (align - 1) <= u64::MAX ==> r == Ok::<u64, LinuxBootLayoutError>(
            ((value + (align - 1)) as u64) & !((align - 1) as u64),
        ),
{
    let mask = align - 1;
    match value.checked_add(mask) {
        Some(v) => Ok(v & !mask),
        None => Err(LinuxBootLayoutError::RangeOverflow { label: "align_up" }),
    }
}

/// Round `value` down to `align` (a power of two) with the mask trick.
pub fn align_down(value: u64, align: u64) -> (r: u64)
    requires
        align > 0,
    ensures
        r == value & !((align - 1) as u64),
{
    value & !(align - 1)
}

proof fn lemma_page_mask(x: u64)
    ensures
        x & !4095u64 == page_down(x as int),
{
    assert(x & !4095u64 == x - x % 4096) by (bit_vector);
}

proof fn lemma_page_up(v: u64)
    requires
        v + 4095 <= u64::MAX,
    ensures
        ((v + 4095) as u64) & !4095u64 == page_up(v as int),
        page_up(v as int) >= v,
        page_up(v as int) < v + 4096,
{
    lemma_page_mask((v + 4095) as u64);
}

/// Overwrite `page[at..at + b.len()]` with `b`.
pub open spec fn put_bytes(page: Seq<u8>, at: int, b: Seq<u8>) -> Seq<u8> {
    Seq::new(page.len(), |i: int| if at <= i < at + b.len() { b[i - at] } else { page[i] })
}

fn put_u8(page: &mut [u8; 4096], at: usize, value: u8)
    requires
        at < 4096,
    ensures
        final(page)@ == old(page)@.update(at as int, value),
{
    page[at] = value;
}

fn put_u16(page: &mut [u8; 4096], at: usize, value: u16)
    requires
        at + 2 <= 4096,
    ensures
        final(page)@ == put_bytes(old(page)@, at as int, le16(value)),
{
    page[at] = value as u8;
    page[at + 1] = (value >> 8u16) as u8;
    assert(page@ =~= put_bytes(old(page)@, at as int, le16(value)));
}

fn put_u32(page: &mut [u8; 4096], at: usize, value: u32)
    requires
        at + 4 <= 4096,
    ensures
        final(page)@ == put_bytes(old(page)@, at as int, le32(value)),
{
    page[at] = value as u8;
    page[at + 1] = (value >> 8u32) as u8;
    page[at + 2] = (value >> 16u32) as u8;
    page[at + 3] = (value >> 24u32) as u8;
    assert(page@ =~= put_bytes(old(page)@, at as int, le32(value)));
}

fn put_u64(page: &mut [u8; 4096], at: usize, value: u64)
    requires
        at + 8 <= 4096,
    ensures
        final(page)@ == put_bytes(old(page)@, at as int, le64(value)),
{
    page[at] = value as u8;
    page[at + 1] = (value >> 8u64) as u8;
    page[at + 2] = (value >> 16u64) as u8;
    page[at + 3] = (value >> 24u64) as u8;
    page[at + 4] = (value >> 32u64) as u8;
    page[at + 5] = (value >> 40u64) as u8;
    page[at + 6] = (value >> 48u64) as u8;
    page[at + 7] = (value >> 56u64) as u8;
    assert(page@ =~= put_bytes(old(page)@, at as int, le64(value)));
}

/// `entries` with one more entry, unless the entry would be empty.
pub open spec fn push_nonempty(entries: Seq<E820Entry>, addr: int, size: int, kind: u32) -> Seq<
    E820Entry,
> {
    if size != 0 {
        entries.push(E820Entry { addr: addr as u64, size: size as u64, kind })
    } else {
        entries
    }
}

fn push_e820(entries: &mut Vec<E820Entry>, addr: u64, size: u64, kind: u32)
    ensures
        final(entries)@ == push_nonempty(old(entries)@, addr as int, size as int, kind),
{
    if size != 0 {
        entries.push(E820Entry { addr, size, kind });
    }
}

/// The ranges the e820 map reserves, ordered by start: low RAM
/// structures, the legacy I/O hole, the kernel, then the initramfs after
/// every fixed range that starts at or before it (the order a stable sort
/// by start gives).
pub open spec fn reserved_ranges(kernel_reserved_len: u64, initramfs: Option<(u64, u64)>) -> Seq<
    LinuxMemoryRange,
> {
    let base = seq![
        LinuxMemoryRange { start: 0, len: LINUX_LOW_RESERVED_LEN },
        LinuxMemoryRange { start: LINUX_LEGACY_IO_HOLE_BASE, len: LINUX_LEGACY_IO_HOLE_LEN },
        LinuxMemoryRange { start: LINUX_KERNEL_LOAD_GPA, len: kernel_reserved_len },
    ];
    match initramfs {
        None => base,
        Some((start, len)) => {
            let idx = if start >= LINUX_KERNEL_LOAD_GPA {
                3int
            } else if start >= LINUX_LEGACY_IO_HOLE_BASE {
                2int
            } else {
                1int
            };
            base.insert(idx, LinuxMemoryRange { start, len })
        },
    }
}

/// One reserved range folded into the map built so far and its cursor:
/// the RAM gap before it, then its part below `mem_bytes`. Ranges that
/// start at or past the end of RAM are skipped.
pub open spec fn sweep_step(
    acc: (Seq<E820Entry>, int),
    r: LinuxMemoryRange,
    mem_bytes: u64,
) -> (Seq<E820Entry>, int) {
    if r.start >= mem_bytes {
        acc
    } else {
        let end = if r.spec_end() < mem_bytes {
            r.spec_end()
        } else {
            mem_bytes as int
        };
        let (es, cursor) = acc;
        let es1 = if cursor < r.start {
            push_nonempty(es, cursor, r.start - cursor, E820_RAM)
        } else {
            es
        };
        if cursor < end {
            (push_nonempty(es1, r.start as int, end - r.start, E820_RESERVED), end)
        } else {
            (es1, cursor)
        }
    }
}

pub open spec fn sweep(rs: Seq<LinuxMemoryRange>, mem_bytes: u64) -> (Seq<E820Entry>, int)
    decreases rs.len(),
{
    if rs.len() == 0 {
        (Seq::empty(), 0)
    } else {
        sweep_step(sweep(rs.drop_last(), mem_bytes), rs.last(), mem_bytes)
    }
}

/// The e820 map: RAM and reserved entries covering `[0, mem_bytes)` in
/// address order, then the device window and the local APIC page.
pub open spec fn spec_e820(rs: Seq<LinuxMemoryRange>, mem_bytes: u64) -> Seq<E820Entry> {
    let (es, cursor) = sweep(rs, mem_bytes);
    let es1 = if cursor < mem_bytes {
        push_nonempty(es, cursor, mem_bytes - cursor, E820_RAM)
    } else {
        es
    };
    push_nonempty(
        push_nonempty(es1, MMIO_HOLE_BASE as int, MMIO_HOLE_LEN as int, E820_RESERVED),
        LINUX_APIC_MMIO_BASE as int,
        LINUX_APIC_MMIO_LEN as int,
        E820_RESERVED,
    )
}

proof fn lemma_sweep_bounds(rs: Seq<LinuxMemoryRange>, mem_bytes: u64)
    ensures
        0 <= sweep(rs, mem_bytes).1 <= mem_bytes,
        sweep(rs, mem_bytes).0.len() <= 2 * rs.len(),
    decreases rs.len(),
{
    if rs.len() > 0 {
        lemma_sweep_bounds(rs.drop_last(), mem_bytes);
    }
}

proof fn lemma_e820_len(rs: Seq<LinuxMemoryRange>, mem_bytes: u64)
    ensures
        spec_e820(rs, mem_bytes).len() <= 2 * rs.len() + 3,
{
    lemma_sweep_bounds(rs, mem_bytes);
}

proof fn lemma_sweep_prefix(rs: Seq<LinuxMemoryRange>, i: int, mem_bytes: u64)
    requires
        0 <= i < rs.len(),
    ensures
        sweep(rs.subrange(0, i + 1), mem_bytes) == sweep_step(
            sweep(rs.subrange(0, i), mem_bytes),
            rs[i],
            mem_bytes,
        ),
{
    assert(rs.subrange(0, i + 1).drop_last() =~= rs.subrange(0, i));
}

/// Build the e820 map for `mem_bytes` of RAM, a kernel reservation of
/// `kernel_reserved_len` bytes at 1 MiB and an optional initramfs.
pub fn build_e820_entries(
    mem_bytes: u64,
    kernel_reserved_len: u64,
    initramfs: Option<LinuxMemoryRange>,
) -> (r: Result<Vec<E820Entry>, LinuxBootLayoutError>)
    requires
        LINUX_KERNEL_LOAD_GPA + kernel_reserved_len <= u64::MAX,
        initramfs matches Some(i) ==> (i.len + 4095 <= u64::MAX ==> i.start + page_up(i.len as int)
            <= u64::MAX),
    ensures
        match initramfs {
            Some(i) => if i.len + 4095 > u64::MAX {
                r == Err::<Vec<E820Entry>, LinuxBootLayoutError>(
                    LinuxBootLayoutError::RangeOverflow { label: "align_up" },
                )
            } else {
                r matches Ok(v) && v@ == spec_e820(
                    reserved_ranges(
                        kernel_reserved_len,
                        Some((i.start, page_up(i.len as int) as u64)),
                    ),
                    mem_bytes,
                )
            },
            None => r matches Ok(v) && v@ == spec_e820(
                reserved_ranges(kernel_reserved_len, None),
                mem_bytes,
            ),
        },
{
    let mut reserved: Vec<LinuxMemoryRange> = Vec::new();
    reserved.push(LinuxMemoryRange::new(0, LINUX_LOW_RESERVED_LEN));
    reserved.push(LinuxMemoryRange::new(LINUX_LEGACY_IO_HOLE_BASE, LINUX_LEGACY_IO_HOLE_LEN));
    reserved.push(LinuxMemoryRange::new(LINUX_KERNEL_LOAD_GPA, kernel_reserved_len));
    let ghost ispec: Option<(u64, u64)> = None;
    match initramfs {
        Some(i) => {
            let len = match align_up(i.len, PAGE_SIZE) {
                Ok(v) => v,
                Err(e) => return Err(e),
            };
            proof {
                lemma_page_up(i.len);
                ispec = Some((i.start, len));
            }
            let idx: usize = if i.start >= LINUX_KERNEL_LOAD_GPA {
                3
            } else if i.start >= LINUX_LEGACY_IO_HOLE_BASE {
                2
            } else {
                1
            };
            reserved.insert(idx, LinuxMemoryRange::new(i.start, len));
        },
        None => {},
    }
    assert(reserved@ =~= reserved_ranges(kernel_reserved_len, ispec));
    let ghost rs = reserved@;
    assert(forall|k: int| 0 <= k < rs.len() ==> #[trigger] rs[k].spec_end() <= u64::MAX);
    let mut entries: Vec<E820Entry> = Vec::new();
    let mut cursor: u64 = 0;
    let mut k: usize = 0;
    assert(rs.subrange(0, 0) =~= Seq::<LinuxMemoryRange>::empty());
    while k < reserved.len()
        invariant
            rs == reserved@,
            rs.len() <= 4,
            forall|q: int| 0 <= q < rs.len() ==> #[trigger] rs[q].spec_end() <= u64::MAX,
            k <= rs.len(),
            sweep(rs.subrange(0, k as int), mem_bytes) == (entries@, cursor as int),
        decreases rs.len() - k,
    {
        let range = reserved[k];
        proof {
            lemma_sweep_prefix(rs, k as int, mem_bytes);
        }
        if range.start < mem_bytes {
            let re = range.end();
            let end = if re < mem_bytes {
                re
            } else {
                mem_bytes
            };
            if cursor < range.start {
                push_e820(&mut entries, cursor, range.start - cursor, E820_RAM);
            }
            if cursor < end {
                push_e820(&mut entries, range.start, end - range.start, E820_RESERVED);
                cursor = end;
            }
        }
        k = k + 1;
    }
    assert(rs.subrange(0, rs.len() as int) =~= rs);
    if cursor < mem_bytes {
        push_e820(&mut entries, cursor, mem_bytes - cursor, E820_RAM);
    }
    push_e820(&mut entries, MMIO_HOLE_BASE, MMIO_HOLE_LEN, E820_RESERVED);
    push_e820(&mut entries, LINUX_APIC_MMIO_BASE, LINUX_APIC_MMIO_LEN, E820_RESERVED);
    proof {
        lemma_sweep_bounds(rs, mem_bytes);
    }
    if entries.len() > E820_TABLE_CAP {
        return Err(
            LinuxBootLayoutError::E820TooManyEntries { count: entries.len(), max: E820_TABLE_CAP },
        );
    }
    Ok(entries)
}


pub open spec fn zero_page() -> Seq<u8> {
    Seq::new(4096, |i: int| 0u8)
}

/// The zero page with the setup header and the loader-owned header fields.
pub open spec fn boot_params_header(h: BzImageLayout, l: LinuxBootLayout) -> Seq<u8> {
    let p1 = put_bytes(zero_page(), SETUP_SECTS_OFF as int, h.setup_header@);
    let p2 = p1.update(ZERO_PAGE_E820_COUNT_OFF as int, l.e820_entries@.len() as u8);
    let p3 = p2.update(SETUP_SECTS_OFF as int, h.setup_sects);
    let p4 = put_bytes(p3, HEADER_MAGIC_OFF as int, header_magic());
    let p5 = put_bytes(p4, PROTOCOL_VERSION_OFF as int, le16(h.protocol_version));
    let p6 = p5.update(TYPE_OF_LOADER_OFF as int, LINUX_TYPE_OF_LOADER);
    let p7 = p6.update(LOADFLAGS_OFF as int, h.loadflags | LOADFLAGS_CAN_USE_HEAP);
    let p8 = put_bytes(p7, CODE32_START_OFF as int, le32(l.kernel_image.start as u32));
    let p9 = match l.initramfs {
        Some(i) => put_bytes(
            put_bytes(p8, RAMDISK_IMAGE_OFF as int, le32(i.start as u32)),
            RAMDISK_SIZE_OFF as int,
            le32(i.len as u32),
        ),
        None => p8,
    };
    let p10 = put_bytes(p9, HEAP_END_PTR_OFF as int, le16(LINUX_HEAP_END_PTR));
    let p11 = put_bytes(p10, CMD_LINE_PTR_OFF as int, le32(l.cmdline.start as u32));
    let p12 = put_bytes(p11, INITRD_ADDR_MAX_OFF as int, le32(h.initrd_addr_max));
    let p13 = put_bytes(p12, KERNEL_ALIGNMENT_OFF as int, le32(h.kernel_alignment));
    let p14 = p13.update(
        RELOCATABLE_KERNEL_OFF as int,
        if h.relocatable_kernel {
            1u8
        } else {
            0u8
        },
    );
    let p15 = put_bytes(p14, XLOADFLAGS_OFF as int, le16(h.xloadflags));
    let p16 = put_bytes(p15, CMDLINE_SIZE_OFF as int, le32(h.cmdline_size));
    put_bytes(p16, PREF_ADDRESS_OFF as int, le64(h.pref_address))
}

/// The e820 table written entry by entry from its offset.
pub open spec fn e820_table(page: Seq<u8>, es: Seq<E820Entry>) -> Seq<u8>
    decreases es.len(),
{
    if es.len() == 0 {
        page
    } else {
        let at = ZERO_PAGE_E820_TABLE_OFF + (es.len() - 1) * E820_ENTRY_SIZE;
        let e = es.last();
        put_bytes(
            put_bytes(put_bytes(e820_table(page, es.drop_last()), at, le64(e.addr)), at + 8, le64(e.size)),
            at + 16,
            le32(e.kind),
        )
    }
}

/// The Linux zero page (boot_params) of a plan.
pub open spec fn spec_boot_params(h: BzImageLayout, l: LinuxBootLayout) -> Seq<u8> {
    e820_table(boot_params_header(h, l), l.e820_entries@)
}

fn build_boot_params(header: &BzImageLayout, layout: &LinuxBootLayout) -> (r: Result<
    [u8; 4096],
    LinuxBootLayoutError,
>)
    ensures
        layout.e820_entries@.len() > E820_TABLE_CAP ==> r == Err::<[u8; 4096], LinuxBootLayoutError>(
            LinuxBootLayoutError::E820TooManyEntries {
                count: layout.e820_entries@.len() as usize,
                max: E820_TABLE_CAP,
            },
        ),
        layout.e820_entries@.len() <= E820_TABLE_CAP && SETUP_SECTS_OFF
            + header.setup_header@.len() > 4096 ==> r == Err::<[u8; 4096], LinuxBootLayoutError>(
            LinuxBootLayoutError::RangeOverflow { label: "setup_header" },
        ),
        layout.e820_entries@.len() <= E820_TABLE_CAP && SETUP_SECTS_OFF
            + header.setup_header@.len() <= 4096 ==> (r matches Ok(p) && p@ == spec_boot_params(
            *header,
            *layout,
        )),
{
    let ne = layout.e820_entries.len();
    if ne > E820_TABLE_CAP {
        return Err(LinuxBootLayoutError::E820TooManyEntries { count: ne, max: E820_TABLE_CAP });
    }
    let sh = header.setup_header.as_slice();
    let shl = sh.len();
    if shl > 4096 - SETUP_SECTS_OFF {
        return Err(LinuxBootLayoutError::RangeOverflow { label: "setup_header" });
    }
    let mut page = [0u8; 4096];
    assert(page@ =~= zero_page());
    let mut i: usize = 0;
    assert(sh@.subrange(0, 0) =~= Seq::<u8>::empty());
    assert(page@ =~= put_bytes(zero_page(), SETUP_SECTS_OFF as int, sh@.subrange(0, 0)));
    while i < shl
        invariant
            shl == sh@.len(),
            SETUP_SECTS_OFF + shl <= 4096,
            i <= shl,
            page@ == put_bytes(zero_page(), SETUP_SECTS_OFF as int, sh@.subrange(0, i as int)),
        decreases shl - i,
    {
        page[SETUP_SECTS_OFF + i] = sh[i];
        i = i + 1;
        assert(page@ =~= put_bytes(zero_page(), SETUP_SECTS_OFF as int, sh@.subrange(0, i as int)));
    }
    assert(sh@.subrange(0, shl as int) =~= sh@);
    put_u8(&mut page, ZERO_PAGE_E820_COUNT_OFF, ne as u8);
    put_u8(&mut page, SETUP_SECTS_OFF, header.setup_sects);
    let ghost before_magic = page@;
    page[HEADER_MAGIC_OFF] = 72u8;
    page[HEADER_MAGIC_OFF + 1] = 100u8;
    page[HEADER_MAGIC_OFF + 2] = 114u8;
    page[HEADER_MAGIC_OFF + 3] = 83u8;
    assert(page@ =~= put_bytes(before_magic, HEADER_MAGIC_OFF as int, header_magic()));
    put_u16(&mut page, PROTOCOL_VERSION_OFF, header.protocol_version);
    put_u8(&mut page, TYPE_OF_LOADER_OFF, LINUX_TYPE_OF_LOADER);
    put_u8(&mut page, LOADFLAGS_OFF, header.loadflags | LOADFLAGS_CAN_USE_HEAP);
    put_u32(&mut page, CODE32_START_OFF, layout.kernel_image.start as u32);
    match layout.initramfs {
        Some(initramfs) => {
            put_u32(&mut page, RAMDISK_IMAGE_OFF, initramfs.start as u32);
            put_u32(&mut page, RAMDISK_SIZE_OFF, initramfs.len as u32);
        },
        None => {},
    }
    put_u16(&mut page, HEAP_END_PTR_OFF, LINUX_HEAP_END_PTR);
    put_u32(&mut page, CMD_LINE_PTR_OFF, layout.cmdline.start as u32);
    put_u32(&mut page, INITRD_ADDR_MAX_OFF, header.initrd_addr_max);
    put_u32(&mut page, KERNEL_ALIGNMENT_OFF, header.kernel_alignment);
    put_u8(
        &mut page,
        RELOCATABLE_KERNEL_OFF,
        if header.relocatable_kernel {
            1u8
        } else {
            0u8
        },
    );
    put_u16(&mut page, XLOADFLAGS_OFF, header.xloadflags);
    put_u32(&mut page, CMDLINE_SIZE_OFF, header.cmdline_size);
    put_u64(&mut page, PREF_ADDRESS_OFF, header.pref_address);
    let ghost base = page@;
    assert(base == boot_params_header(*header, *layout));
    let es = layout.e820_entries.as_slice();
    let mut index: usize = 0;
    assert(es@.subrange(0, 0) =~= Seq::<E820Entry>::empty());
    while index < ne
        invariant
            ne == es@.len(),
            es@ == layout.e820_entries@,
            ne <= E820_TABLE_CAP,
            index <= ne,
            page@ == e820_table(base, es@.subrange(0, index as int)),
        decreases ne - index,
    {
        let entry = es[index];
        let at = ZERO_PAGE_E820_TABLE_OFF + index * E820_ENTRY_SIZE;
        put_u64(&mut page, at, entry.addr);
        put_u64(&mut page, at + 8, entry.size);
        put_u32(&mut page, at + 16, entry.kind);
        proof {
            assert(es@.subrange(0, index + 1).drop_last() =~= es@.subrange(0, index as int));
        }
        index = index + 1;
    }
    assert(es@.subrange(0, ne as int) =~= es@);
    Ok(page)
}

/// Bytes the kernel reservation spans: the larger of the image and its
/// declared in-memory size.
pub open spec fn kernel_span(h: BzImageLayout) -> int {
    if h.kernel_image_length < h.init_size {
        h.init_size as int
    } else {
        h.kernel_image_length as int
    }
}

pub open spec fn kernel_reserved_end(h: BzImageLayout) -> int {
    LINUX_KERNEL_LOAD_GPA + page_up(kernel_span(h))
}

/// Highest address an initramfs may reach.
pub open spec fn initramfs_limit(h: BzImageLayout, mem_bytes: u64) -> int {
    if mem_bytes < h.initrd_addr_max + 1 {
        mem_bytes as int
    } else {
        h.initrd_addr_max + 1
    }
}

/// The initramfs sits page-aligned at the top of its placement window.
pub open spec fn initramfs_start(h: BzImageLayout, mem_bytes: u64, initramfs_len: int) -> int {
    page_down(initramfs_limit(h, mem_bytes)) - page_up(initramfs_len)
}

/// The first placement rule a boot plan would break, in the order they
/// are checked; `None` when a plan exists.
pub open spec fn spec_plan_error(
    h: BzImageLayout,
    mem_bytes: u64,
    initramfs_len: int,
    cmdline_len: int,
) -> Option<LinuxBootLayoutError> {
    if cmdline_len > MAX_CMDLINE {
        Some(LinuxBootLayoutError::CmdlineTooLong { len: cmdline_len as usize, limit: MAX_CMDLINE })
    } else if mem_bytes > LINUX_APIC_MMIO_BASE {
        Some(
            LinuxBootLayoutError::MemOverlapsApicMmio { mem_bytes, apic_base: LINUX_APIC_MMIO_BASE },
        )
    } else if mem_bytes > MMIO_HOLE_BASE {
        Some(LinuxBootLayoutError::MemOverlapsDeviceWindow { mem_bytes, device_base: MMIO_HOLE_BASE })
    } else if kernel_span(h) + 4095 > u64::MAX {
        Some(LinuxBootLayoutError::RangeOverflow { label: "align_up" })
    } else if kernel_reserved_end(h) > u64::MAX {
        Some(LinuxBootLayoutError::RangeOverflow { label: "kernel" })
    } else if kernel_reserved_end(h) > mem_bytes {
        Some(
            LinuxBootLayoutError::KernelOutsideRam {
                end: kernel_reserved_end(h) as u64,
                mem_bytes,
            },
        )
    } else if initramfs_len > initramfs_limit(h, mem_bytes) {
        Some(
            LinuxBootLayoutError::InitramfsTooLarge {
                len: initramfs_len as u64,
                limit: initramfs_limit(h, mem_bytes) as u64,
            },
        )
    } else if initramfs_len > 0 && initramfs_start(h, mem_bytes, initramfs_len) < 0 {
        Some(
            LinuxBootLayoutError::InitramfsTooLarge {
                len: initramfs_len as u64,
                limit: initramfs_limit(h, mem_bytes) as u64,
            },
        )
    } else if initramfs_len > 0 && initramfs_start(h, mem_bytes, initramfs_len)
        < kernel_reserved_end(h) {
        Some(
            LinuxBootLayoutError::InitramfsOverlapsKernel {
                start: initramfs_start(h, mem_bytes, initramfs_len) as u64,
                kernel_reserved_end: kernel_reserved_end(h) as u64,
            },
        )
    } else if SETUP_SECTS_OFF + h.setup_header@.len() > 4096 {
        Some(LinuxBootLayoutError::RangeOverflow { label: "setup_header" })
    } else {
        None
    }
}

pub open spec fn plan_initramfs(h: BzImageLayout, mem_bytes: u64, initramfs_len: int) -> Option<
    LinuxMemoryRange,
> {
    if initramfs_len == 0 {
        None
    } else {
        Some(
            LinuxMemoryRange {
                start: initramfs_start(h, mem_bytes, initramfs_len) as u64,
                len: initramfs_len as u64,
            },
        )
    }
}

pub open spec fn plan_reserved(h: BzImageLayout, mem_bytes: u64, initramfs_len: int) -> Seq<
    LinuxMemoryRange,
> {
    reserved_ranges(
        page_up(kernel_span(h)) as u64,
        if initramfs_len == 0 {
            None
        } else {
            Some(
                (
                    initramfs_start(h, mem_bytes, initramfs_len) as u64,
                    page_up(initramfs_len) as u64,
                ),
            )
        },
    )
}

/// `l` is the layout planned for `h` in `mem_bytes` of RAM.
pub open spec fn planned_layout(
    l: LinuxBootLayout,
    h: BzImageLayout,
    mem_bytes: u64,
    initramfs_len: int,
    cmdline_len: int,
) -> bool {
    &&& l.page_tables == LinuxMemoryRange { start: LINUX_PAGE_TABLES_GPA, len: LINUX_PAGE_TABLES_LEN }
    &&& l.boot_params == LinuxMemoryRange { start: LINUX_BOOT_PARAMS_GPA, len: 4096 }
    &&& l.cmdline == LinuxMemoryRange { start: LINUX_CMDLINE_GPA, len: LINUX_CMDLINE_RESERVED_LEN }
    &&& l.cmdline_len == cmdline_len
    &&& l.kernel_image == LinuxMemoryRange {
        start: LINUX_KERNEL_LOAD_GPA,
        len: h.kernel_image_length,
    }
    &&& l.kernel_image_file_offset == h.kernel_image_file_offset
    &&& l.compressed_payload_file_offset == h.payload_file_offset
    &&& l.compressed_payload_length == h.payload_length
    &&& l.initramfs == plan_initramfs(h, mem_bytes, initramfs_len)
    &&& l.device_mmio == LinuxMemoryRange { start: MMIO_HOLE_BASE, len: MMIO_HOLE_LEN }
    &&& l.apic_mmio == LinuxMemoryRange { start: LINUX_APIC_MMIO_BASE, len: LINUX_APIC_MMIO_LEN }
    &&& l.e820_entries@ == spec_e820(plan_reserved(h, mem_bytes, initramfs_len), mem_bytes)
}

/// Plan a bzImage boot: place the kernel at 1 MiB, the initramfs at the top
/// of its window, build the e820 map and the zero page, and the command
/// line image with its trailing NUL.
pub fn plan_bzimage_boot(
    header: &BzImageLayout,
    mem_bytes: u64,
    initramfs_len: usize,
    cmdline: &[u8],
) -> (r: Result<LinuxBootPlan, LinuxBootLayoutError>)
    ensures
        match spec_plan_error(*header, mem_bytes, initramfs_len as int, cmdline@.len() as int) {
            Some(e) => r == Err::<LinuxBootPlan, LinuxBootLayoutError>(e),
            None => r matches Ok(p) && planned_layout(
                p.layout,
                *header,
                mem_bytes,
                initramfs_len as int,
                cmdline@.len() as int,
            ) && p.boot_params@ == spec_boot_params(*header, p.layout) && p.cmdline_image@
                == cmdline@.push(0),
        },
{
    let ghost h = *header;
    let clen = cmdline.len();
    if clen > MAX_CMDLINE {
        return Err(LinuxBootLayoutError::CmdlineTooLong { len: clen, limit: MAX_CMDLINE });
    }
    let cmdline_image_len = (clen + 1) as u64;
    if cmdline_image_len > LINUX_CMDLINE_RESERVED_LEN {
        return Err(
            LinuxBootLayoutError::CmdlineTooLong {
                len: clen,
                limit: (LINUX_CMDLINE_RESERVED_LEN - 1) as usize,
            },
        );
    }
    if mem_bytes > LINUX_APIC_MMIO_BASE {
        return Err(
            LinuxBootLayoutError::MemOverlapsApicMmio { mem_bytes, apic_base: LINUX_APIC_MMIO_BASE },
        );
    }
    if mem_bytes > MMIO_HOLE_BASE {
        return Err(
            LinuxBootLayoutError::MemOverlapsDeviceWindow {
                mem_bytes,
                device_base: MMIO_HOLE_BASE,
            },
        );
    }
    let span = if header.kernel_image_length < header.init_size {
        header.init_size
    } else {
        header.kernel_image_length
    };
    let kernel_reserved_len = match align_up(span, PAGE_SIZE) {
        Ok(v) => v,
        Err(e) => return Err(e),
    };
    proof {
        lemma_page_up(span);
    }
    let kernel_reserved_end = match LINUX_KERNEL_LOAD_GPA.checked_add(kernel_reserved_len) {
        Some(v) => v,
        None => return Err(LinuxBootLayoutError::RangeOverflow { label: "kernel" }),
    };
    if kernel_reserved_end > mem_bytes {
        return Err(LinuxBootLayoutError::KernelOutsideRam { end: kernel_reserved_end, mem_bytes });
    }
    let ilen = initramfs_len as u64;
    let iam1 = header.initrd_addr_max as u64 + 1;
    let initramfs_limit = if mem_bytes < iam1 {
        mem_bytes
    } else {
        iam1
    };
    if ilen > initramfs_limit {
        return Err(LinuxBootLayoutError::InitramfsTooLarge { len: ilen, limit: initramfs_limit });
    }
    let initramfs = if ilen == 0 {
        None
    } else {
        let initramfs_reserved_len = match align_up(ilen, PAGE_SIZE) {
            Ok(v) => v,
            Err(e) => return Err(e),
        };
        let initramfs_end = align_down(initramfs_limit, PAGE_SIZE);
        proof {
            lemma_page_up(ilen);
            lemma_page_mask(initramfs_limit);
        }
        if initramfs_end < initramfs_reserved_len {
            return Err(LinuxBootLayoutError::InitramfsTooLarge { len: ilen, limit: initramfs_limit });
        }
        let initramfs_start = initramfs_end - initramfs_reserved_len;
        if initramfs_start < kernel_reserved_end {
            return Err(
                LinuxBootLayoutError::InitramfsOverlapsKernel {
                    start: initramfs_start,
                    kernel_reserved_end,
                },
            );
        }
        Some(LinuxMemoryRange::new(initramfs_start, ilen))
    };
    let page_tables = LinuxMemoryRange::new(LINUX_PAGE_TABLES_GPA, LINUX_PAGE_TABLES_LEN);
    let boot_params = LinuxMemoryRange::new(LINUX_BOOT_PARAMS_GPA, LINUX_BOOT_PARAMS_SIZE as u64);
    let cmdline_range = LinuxMemoryRange::new(LINUX_CMDLINE_GPA, LINUX_CMDLINE_RESERVED_LEN);
    let kernel_image = LinuxMemoryRange::new(LINUX_KERNEL_LOAD_GPA, header.kernel_image_length);
    let device_mmio = LinuxMemoryRange::new(MMIO_HOLE_BASE, MMIO_HOLE_LEN);
    let apic_mmio = LinuxMemoryRange::new(LINUX_APIC_MMIO_BASE, LINUX_APIC_MMIO_LEN);
    proof {
        if ilen > 0 {
            lemma_page_up(ilen);
        }
    }
    let e820_entries = match build_e820_entries(mem_bytes, kernel_reserved_len, initramfs) {
        Ok(v) => v,
        Err(e) => return Err(e),
    };
    let layout = LinuxBootLayout {
        page_tables,
        boot_params,
        cmdline: cmdline_range,
        cmdline_len: clen as u32,
        kernel_image,
        kernel_image_file_offset: header.kernel_image_file_offset,
        compressed_payload_file_offset: header.payload_file_offset,
        compressed_payload_length: header.payload_length,
        initramfs,
        device_mmio,
        apic_mmio,
        e820_entries,
    };
    proof {
        lemma_e820_len(plan_reserved(h, mem_bytes, initramfs_len as int), mem_bytes);
    }
    let boot_params = match build_boot_params(header, &layout) {
        Ok(p) => p,
        Err(e) => return Err(e),
    };
    let mut cmdline_image = crate::codec::copy_range(cmdline, 0, clen);
    assert(cmdline@.subrange(0, clen as int) =~= cmdline@);
    cmdline_image.push(0u8);
    Ok(LinuxBootPlan { layout, boot_params, cmdline_image })
}


/// The ranges a plan places in guest memory: page tables, zero page,
/// command line, kernel image and, when there is one, the initramfs.
pub open spec fn placed_ranges(l: LinuxBootLayout) -> Seq<LinuxMemoryRange> {
    let fixed = seq![l.page_tables, l.boot_params, l.cmdline, l.kernel_image];
    match l.initramfs {
        Some(i) => fixed.push(i),
        None => fixed,
    }
}

proof fn lemma_page_round(v: int)
    requires
        v >= 0,
    ensures
        0 <= page_down(v) <= v,
        v <= page_up(v) < v + 4096,
{
    assert(0 <= page_down(v) <= v) by (nonlinear_arith)
        requires
            v >= 0,
    ;
    assert(v <= page_up(v) < v + 4096) by (nonlinear_arith)
        requires
            v >= 0,
    ;
}

/// Every range a boot plan places lies inside guest RAM, no two of them
/// share an address, and none reaches the device window or the local
/// APIC page.
pub proof fn lemma_plan_ranges_disjoint(
    l: LinuxBootLayout,
    h: BzImageLayout,
    mem_bytes: u64,
    initramfs_len: int,
    cmdline_len: int,
)
    requires
        0 <= initramfs_len,
        spec_plan_error(h, mem_bytes, initramfs_len, cmdline_len) is None,
        planned_layout(l, h, mem_bytes, initramfs_len, cmdline_len),
    ensures
        forall|i: int, j: int|
            0 <= i < j < placed_ranges(l).len() ==> !#[trigger] placed_ranges(l)[i].spec_overlaps(
                #[trigger] placed_ranges(l)[j],
            ),
        forall|i: int|
            0 <= i < placed_ranges(l).len() ==> {
                &&& #[trigger] placed_ranges(l)[i].spec_end() <= mem_bytes
                &&& !placed_ranges(l)[i].spec_overlaps(l.device_mmio)
                &&& !placed_ranges(l)[i].spec_overlaps(l.apic_mmio)
            },
{
    lemma_page_round(kernel_span(h));
    lemma_page_round(initramfs_limit(h, mem_bytes));
    lemma_page_round(initramfs_len);
    let rs = placed_ranges(l);
    assert(l.kernel_image.spec_end() <= kernel_reserved_end(h));
    if initramfs_len > 0 {
        let i = l.initramfs->Some_0;
        assert(i.start >= kernel_reserved_end(h));
        assert(i.spec_end() <= mem_bytes);
    }
}

/// Entries that are non-empty and in strictly ascending, non-overlapping
/// address order.
pub open spec fn e820_ordered(es: Seq<E820Entry>) -> bool {
    &&& forall|i: int| 0 <= i < es.len() ==> #[trigger] es[i].size > 0
    &&& forall|i: int, j: int|
        0 <= i < j < es.len() ==> #[trigger] es[i].addr + es[i].size <= #[trigger] es[j].addr
}

/// Ranges sorted by start, each ending at or before the next one starts.
pub open spec fn ranges_chained(rs: Seq<LinuxMemoryRange>) -> bool {
    forall|i: int| 0 <= i < rs.len() - 1 ==> #[trigger] rs[i].spec_end() <= rs[i + 1].start
}

proof fn lemma_push_ordered(es: Seq<E820Entry>, cursor: int, addr: int, size: int, kind: u32)
    requires
        e820_ordered(es),
        forall|i: int| 0 <= i < es.len() ==> #[trigger] es[i].addr + es[i].size <= cursor,
        cursor <= addr,
        0 <= addr <= u64::MAX,
        0 <= size <= u64::MAX,
    ensures
        e820_ordered(push_nonempty(es, addr, size, kind)),
        forall|i: int|
            0 <= i < push_nonempty(es, addr, size, kind).len() ==> #[trigger] push_nonempty(
                es,
                addr,
                size,
                kind,
            )[i].addr + push_nonempty(es, addr, size, kind)[i].size <= if size != 0 {
                addr + size
            } else {
                cursor
            },
{
    if size != 0 {
        let n = es.push(E820Entry { addr: addr as u64, size: size as u64, kind });
        assert forall|i: int, j: int| 0 <= i < j < n.len() implies #[trigger] n[i].addr + n[i].size
            <= #[trigger] n[j].addr by {
            if j == es.len() {
                assert(n[i] == es[i]);
            } else {
                assert(n[i] == es[i] && n[j] == es[j]);
            }
        }
    }
}

proof fn lemma_sweep_ordered(rs: Seq<LinuxMemoryRange>, mem_bytes: u64)
    requires
        ranges_chained(rs),
    ensures
        e820_ordered(sweep(rs, mem_bytes).0),
        forall|i: int|
            0 <= i < sweep(rs, mem_bytes).0.len() ==> #[trigger] sweep(rs, mem_bytes).0[i].addr
                + sweep(rs, mem_bytes).0[i].size <= sweep(rs, mem_bytes).1,
        0 <= sweep(rs, mem_bytes).1 <= mem_bytes,
        rs.len() > 0 ==> sweep(rs, mem_bytes).1 <= rs.last().spec_end(),
    decreases rs.len(),
{
    if rs.len() > 0 {
        let prev = rs.drop_last();
        assert(ranges_chained(prev)) by {
            assert forall|i: int| 0 <= i < prev.len() - 1 implies #[trigger] prev[i].spec_end()
                <= prev[i + 1].start by {
                assert(prev[i] == rs[i] && prev[i + 1] == rs[i + 1]);
            }
        }
        lemma_sweep_ordered(prev, mem_bytes);
        let (es, cursor) = sweep(prev, mem_bytes);
        let r = rs.last();
        if prev.len() > 0 {
            assert(prev.last() == rs[rs.len() - 2]);
            assert(rs[rs.len() - 2].spec_end() <= rs[rs.len() - 1].start);
        }
        assert(cursor <= r.start);
        if r.start < mem_bytes {
            let end = if r.spec_end() < mem_bytes {
                r.spec_end()
            } else {
                mem_bytes as int
            };
            let es1 = if cursor < r.start {
                push_nonempty(es, cursor, r.start - cursor, E820_RAM)
            } else {
                es
            };
            if cursor < r.start {
                lemma_push_ordered(es, cursor, cursor, r.start - cursor, E820_RAM);
            }
            assert(forall|i: int| 0 <= i < es1.len() ==> #[trigger] es1[i].addr + es1[i].size
                <= r.start);
            if cursor < end {
                lemma_push_ordered(es1, r.start as int, r.start as int, end - r.start, E820_RESERVED);
            }
        }
    }
}

/// The reserved ranges of a valid plan are sorted and do not overlap.
proof fn lemma_plan_reserved_chained(h: BzImageLayout, mem_bytes: u64, initramfs_len: int)
    requires
        0 <= initramfs_len,
        spec_plan_error(h, mem_bytes, initramfs_len, 0) is None,
    ensures
        ranges_chained(plan_reserved(h, mem_bytes, initramfs_len)),
        forall|i: int|
            0 <= i < plan_reserved(h, mem_bytes, initramfs_len).len() ==> #[trigger] plan_reserved(
                h,
                mem_bytes,
                initramfs_len,
            )[i].spec_end() <= u64::MAX,
{
    lemma_page_round(kernel_span(h));
    lemma_page_round(initramfs_limit(h, mem_bytes));
    lemma_page_round(initramfs_len);
    let rs = plan_reserved(h, mem_bytes, initramfs_len);
    if initramfs_len > 0 {
        let st = initramfs_start(h, mem_bytes, initramfs_len);
        assert(st >= kernel_reserved_end(h));
        assert(st >= LINUX_KERNEL_LOAD_GPA);
        assert(rs.len() == 4);
        assert(rs[3] == LinuxMemoryRange { start: st as u64, len: page_up(initramfs_len) as u64 });
        assert(rs[2].spec_end() == kernel_reserved_end(h));
    }
}

proof fn lemma_put_bytes_keeps(p: Seq<u8>, at: int, b: Seq<u8>, i: int)
    requires
        0 <= i < p.len(),
        i < at,
    ensures
        put_bytes(p, at, b)[i] == p[i],
        put_bytes(p, at, b).len() == p.len(),
{
}

proof fn lemma_e820_table_keeps(page: Seq<u8>, es: Seq<E820Entry>, i: int)
    requires
        0 <= i < page.len(),
        i < ZERO_PAGE_E820_TABLE_OFF,
    ensures
        e820_table(page, es)[i] == page[i],
        e820_table(page, es).len() == page.len(),
    decreases es.len(),
{
    if es.len() > 0 {
        lemma_e820_table_keeps(page, es.drop_last(), i);
    }
}

/// The e820 map of a plan is well formed: its entries are non-empty and
/// ascend without overlapping, there are at most `E820_TABLE_CAP` of them,
/// and the zero page's count byte holds their number.
pub proof fn lemma_plan_e820_well_formed(
    l: LinuxBootLayout,
    h: BzImageLayout,
    mem_bytes: u64,
    initramfs_len: int,
    cmdline_len: int,
)
    requires
        0 <= initramfs_len,
        spec_plan_error(h, mem_bytes, initramfs_len, cmdline_len) is None,
        planned_layout(l, h, mem_bytes, initramfs_len, cmdline_len),
    ensures
        e820_ordered(l.e820_entries@),
        l.e820_entries@.len() <= E820_TABLE_CAP,
        spec_boot_params(h, l).len() == 4096,
        spec_boot_params(h, l)[ZERO_PAGE_E820_COUNT_OFF as int] == l.e820_entries@.len(),
{
    let rs = plan_reserved(h, mem_bytes, initramfs_len);
    assert(spec_plan_error(h, mem_bytes, initramfs_len, 0) is None);
    lemma_plan_reserved_chained(h, mem_bytes, initramfs_len);
    lemma_sweep_ordered(rs, mem_bytes);
    lemma_e820_len(rs, mem_bytes);
    let (es, cursor) = sweep(rs, mem_bytes);
    let es1 = if cursor < mem_bytes {
        push_nonempty(es, cursor, mem_bytes - cursor, E820_RAM)
    } else {
        es
    };
    if cursor < mem_bytes {
        lemma_push_ordered(es, cursor, cursor, mem_bytes - cursor, E820_RAM);
    }
    assert(forall|i: int| 0 <= i < es1.len() ==> #[trigger] es1[i].addr + es1[i].size <= mem_bytes);
    let es2 = push_nonempty(es1, MMIO_HOLE_BASE as int, MMIO_HOLE_LEN as int, E820_RESERVED);
    lemma_push_ordered(es1, mem_bytes as int, MMIO_HOLE_BASE as int, MMIO_HOLE_LEN as int, E820_RESERVED);
    lemma_push_ordered(
        es2,
        (MMIO_HOLE_BASE + MMIO_HOLE_LEN) as int,
        LINUX_APIC_MMIO_BASE as int,
        LINUX_APIC_MMIO_LEN as int,
        E820_RESERVED,
    );
    assert(rs.len() <= 4);
    let n = l.e820_entries@.len();
    let p1 = put_bytes(zero_page(), SETUP_SECTS_OFF as int, h.setup_header@);
    let p2 = p1.update(ZERO_PAGE_E820_COUNT_OFF as int, n as u8);
    assert(p2[ZERO_PAGE_E820_COUNT_OFF as int] == n);
    let hdr = boot_params_header(h, l);
    assert(hdr.len() == 4096);
    assert(hdr[ZERO_PAGE_E820_COUNT_OFF as int] == n);
    lemma_e820_table_keeps(hdr, l.e820_entries@, ZERO_PAGE_E820_COUNT_OFF as int);
}

} // verus!

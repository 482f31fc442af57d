//! The human-readable text of the boot errors, as status lines and logs
//! print them.

use super::linux_bzimage::{BzImageError, LinuxBootLayoutError};
use super::{BootError, MAX_CMDLINE};
use crate::text::{
    decimal_string, hex_digits_padded, hex_string, hex_string_padded, spec_decimal, spec_hex,
    zero_pad,
};
use vstd::prelude::*;

verus! {

/// `{n}` of an unsigned integer.
pub open spec fn dec(n: nat) -> Seq<char> {
    spec_decimal(n)
}

/// `{n:#x}`.
pub open spec fn hex(n: nat) -> Seq<char> {
    "0x"@ + spec_hex(n)
}

/// `{n:#0w$x}`: `0x` and the digits, zero-padded to `w` characters in all.
pub open spec fn hex_w(n: nat, w: nat) -> Seq<char> {
    "0x"@ + zero_pad(spec_hex(n), (w - 2) as nat)
}

/// `{b:02x?}` of four bytes: the list form with each byte as two
/// lowercase hexadecimal digits.
pub open spec fn byte_list4(b: [u8; 4]) -> Seq<char> {
    "["@ + zero_pad(spec_hex(b[0] as nat), 2) + ", "@ + zero_pad(spec_hex(b[1] as nat), 2)
        + ", "@ + zero_pad(spec_hex(b[2] as nat), 2) + ", "@ + zero_pad(
        spec_hex(b[3] as nat),
        2,
    ) + "]"@
}

/// The text of a bzImage header refusal.
pub open spec fn bz_image_error_text(e: BzImageError) -> Seq<char> {
    match e {
        BzImageError::TruncatedSetupHeader { len, min } => "bzImage setup header truncated: got "@
            + dec(len as nat) + " bytes, need "@ + dec(min as nat),
        BzImageError::BadHeaderMagic { found } => "bzImage setup header magic is not HdrS: "@
            + byte_list4(found),
        BzImageError::UnsupportedProtocolVersion { found, min } => "bzImage protocol "@ + hex_w(
            found as nat,
            6,
        ) + " is unsupported, need >= "@ + hex_w(min as nat, 6),
        BzImageError::UnsupportedLoadFlags { loadflags } => "bzImage loadflags "@ + hex_w(
            loadflags as nat,
            4,
        ) + " do not set LOADED_HIGH"@,
        BzImageError::UnsupportedXloadflags { xloadflags, supported } => "bzImage xloadflags "@
            + hex_w(xloadflags as nat, 6) + " exceed supported mask "@ + hex_w(supported as nat, 6),
        BzImageError::PayloadOverflow => "bzImage payload offset overflows"@,
        BzImageError::PayloadOutsideImage { start, len, image_len } => "bzImage payload ["@ + hex(
            start as nat,
        ) + "..+"@ + hex(len as nat) + ") exceeds image length "@ + hex(image_len as nat),
        BzImageError::SetupHeaderTooShort { end, min } => "bzImage setup header copy end "@ + hex(
            end as nat,
        ) + " is before required parsed end "@ + hex(min as nat),
        BzImageError::BadInitSize { init_size } => "bzImage init_size "@ + hex(init_size as nat)
            + " is not usable"@,
        BzImageError::BadKernelAlignment { alignment } => "bzImage kernel_alignment "@ + hex(
            alignment as nat,
        ) + " is not a supported power-of-two alignment"@,
        BzImageError::UnsupportedRelocatableCombination { alignment, pref_address } =>
            "bzImage relocatable kernel has pref_address "@ + hex(pref_address as nat)
            + " not aligned to "@ + hex(alignment as nat),
        BzImageError::InitramfsTooLarge { len, limit } => "initramfs length "@ + dec(len as nat)
            + " exceeds placement limit "@ + dec(limit as nat),
        BzImageError::CmdlineTooLong { len, limit } => "Linux cmdline length "@ + dec(len as nat)
            + " exceeds limit "@ + dec(limit as nat),
        BzImageError::UnsupportedSetupHeaderField { field, value } => "bzImage setup header field "@
            + field@ + "="@ + hex(value as nat) + " is outside the deterministic subset"@,
    }
}

/// The text of a boot-layout refusal.
pub open spec fn layout_error_text(e: LinuxBootLayoutError) -> Seq<char> {
    match e {
        LinuxBootLayoutError::CmdlineTooLong { len, limit } => "Linux cmdline length "@ + dec(
            len as nat,
        ) + " exceeds layout limit "@ + dec(limit as nat),
        LinuxBootLayoutError::MemOverlapsApicMmio { mem_bytes, apic_base } => "guest RAM end "@
            + hex(mem_bytes as nat) + " overlaps APIC MMIO base "@ + hex(apic_base as nat),
        LinuxBootLayoutError::MemOverlapsDeviceWindow { mem_bytes, device_base } =>
            "guest RAM end "@ + hex(mem_bytes as nat) + " overlaps deterministic device window "@
            + hex(device_base as nat),
        LinuxBootLayoutError::RangeOverflow { label } => label@ + " placement overflowed u64"@,
        LinuxBootLayoutError::KernelOutsideRam { end, mem_bytes } =>
            "bzImage kernel image end "@ + hex(end as nat) + " exceeds guest RAM "@ + hex(
            mem_bytes as nat,
        ),
        LinuxBootLayoutError::InitramfsTooLarge { len, limit } => "initramfs length "@ + dec(
            len as nat,
        ) + " exceeds placement limit "@ + dec(limit as nat),
        LinuxBootLayoutError::InitramfsOverlapsKernel { start, kernel_reserved_end } =>
            "initramfs start "@ + hex(start as nat) + " overlaps kernel reservation ending at "@
            + hex(kernel_reserved_end as nat),
        LinuxBootLayoutError::E820TooManyEntries { count, max } => "e820 entry count "@ + dec(
            count as nat,
        ) + " exceeds boot_params cap "@ + dec(max as nat),
    }
}

/// The text of a loader error.
pub open spec fn boot_error_text(e: BootError) -> Seq<char> {
    match e {
        BootError::Elf(m) => "elf: "@ + m@,
        BootError::Mem(m) => "guest memory: "@ + m@,
        BootError::Kvm(m) => "kvm: "@ + m@,
        BootError::CmdlineTooLong => "cmdline exceeds "@ + dec(MAX_CMDLINE as nat) + " bytes"@,
    }
}

fn byte_list(b: [u8; 4]) -> (s: String)
    ensures
        s@ == byte_list4(b),
{
    String::from_str("[").concat(hex_digits_padded(b[0] as u64, 2).as_str()).concat(", ").concat(
        hex_digits_padded(b[1] as u64, 2).as_str(),
    ).concat(", ").concat(hex_digits_padded(b[2] as u64, 2).as_str()).concat(", ").concat(
        hex_digits_padded(b[3] as u64, 2).as_str(),
    ).concat("]")
}

impl BzImageError {
    /// What the refusal says.
    pub fn message(&self) -> (s: String)
        ensures
            s@ == bz_image_error_text(*self),
    {
        match self {
            BzImageError::TruncatedSetupHeader { len, min } => String::from_str(
                "bzImage setup header truncated: got ",
            ).concat(decimal_string(*len as u64).as_str()).concat(" bytes, need ").concat(
                decimal_string(*min as u64).as_str(),
            ),
            BzImageError::BadHeaderMagic { found } => String::from_str(
                "bzImage setup header magic is not HdrS: ",
            ).concat(byte_list(*found).as_str()),
            BzImageError::UnsupportedProtocolVersion { found, min } => String::from_str(
                "bzImage protocol ",
            ).concat(hex_string_padded(*found as u64, 6).as_str()).concat(
                " is unsupported, need >= ",
            ).concat(hex_string_padded(*min as u64, 6).as_str()),
            BzImageError::UnsupportedLoadFlags { loadflags } => String::from_str(
                "bzImage loadflags ",
            ).concat(hex_string_padded(*loadflags as u64, 4).as_str()).concat(
                " do not set LOADED_HIGH",
            ),
            BzImageError::UnsupportedXloadflags { xloadflags, supported } => String::from_str(
                "bzImage xloadflags ",
            ).concat(hex_string_padded(*xloadflags as u64, 6).as_str()).concat(
                " exceed supported mask ",
            ).concat(hex_string_padded(*supported as u64, 6).as_str()),
            BzImageError::PayloadOverflow => String::from_str("bzImage payload offset overflows"),
            BzImageError::PayloadOutsideImage { start, len, image_len } => String::from_str(
                "bzImage payload [",
            ).concat(hex_string(*start).as_str()).concat("..+").concat(
                hex_string(*len).as_str(),
            ).concat(") exceeds image length ").concat(hex_string(*image_len).as_str()),
            BzImageError::SetupHeaderTooShort { end, min } => String::from_str(
                "bzImage setup header copy end ",
            ).concat(hex_string(*end as u64).as_str()).concat(
                " is before required parsed end ",
            ).concat(hex_string(*min as u64).as_str()),
            BzImageError::BadInitSize { init_size } => String::from_str("bzImage init_size ").concat(
                hex_string(*init_size as u64).as_str(),
            ).concat(" is not usable"),
            BzImageError::BadKernelAlignment { alignment } => String::from_str(
                "bzImage kernel_alignment ",
            ).concat(hex_string(*alignment as u64).as_str()).concat(
                " is not a supported power-of-two alignment",
            ),
            BzImageError::UnsupportedRelocatableCombination { alignment, pref_address } =>
                String::from_str("bzImage relocatable kernel has pref_address ").concat(
                hex_string(*pref_address).as_str(),
            ).concat(" not aligned to ").concat(hex_string(*alignment as u64).as_str()),
            BzImageError::InitramfsTooLarge { len, limit } => String::from_str("initramfs length ")
                .concat(decimal_string(*len).as_str()).concat(" exceeds placement limit ").concat(
                decimal_string(*limit).as_str(),
            ),
            BzImageError::CmdlineTooLong { len, limit } => String::from_str("Linux cmdline length ")
                .concat(decimal_string(*len as u64).as_str()).concat(" exceeds limit ").concat(
                decimal_string(*limit as u64).as_str(),
            ),
            BzImageError::UnsupportedSetupHeaderField { field, value } => String::from_str(
                "bzImage setup header field ",
            ).concat(*field).concat("=").concat(hex_string(*value).as_str()).concat(
                " is outside the deterministic subset",
            ),
        }
    }
}

impl LinuxBootLayoutError {
    /// What the refusal says.
    pub fn message(&self) -> (s: String)
        ensures
            s@ == layout_error_text(*self),
    {
        match self {
            LinuxBootLayoutError::CmdlineTooLong { len, limit } => String::from_str(
                "Linux cmdline length ",
            ).concat(decimal_string(*len as u64).as_str()).concat(" exceeds layout limit ").concat(
                decimal_string(*limit as u64).as_str(),
            ),
            LinuxBootLayoutError::MemOverlapsApicMmio { mem_bytes, apic_base } => String::from_str(
                "guest RAM end ",
            ).concat(hex_string(*mem_bytes).as_str()).concat(" overlaps APIC MMIO base ").concat(
                hex_string(*apic_base).as_str(),
            ),
            LinuxBootLayoutError::MemOverlapsDeviceWindow { mem_bytes, device_base } =>
                String::from_str("guest RAM end ").concat(hex_string(*mem_bytes).as_str()).concat(
                " overlaps deterministic device window ",
            ).concat(hex_string(*device_base).as_str()),
            LinuxBootLayoutError::RangeOverflow { label } => String::from_str(*label).concat(
                " placement overflowed u64",
            ),
            LinuxBootLayoutError::KernelOutsideRam { end, mem_bytes } => String::from_str(
                "bzImage kernel image end ",
            ).concat(hex_string(*end).as_str()).concat(" exceeds guest RAM ").concat(
                hex_string(*mem_bytes).as_str(),
            ),
            LinuxBootLayoutError::InitramfsTooLarge { len, limit } => String::from_str(
                "initramfs length ",
            ).concat(decimal_string(*len).as_str()).concat(" exceeds placement limit ").concat(
                decimal_string(*limit).as_str(),
            ),
            LinuxBootLayoutError::InitramfsOverlapsKernel { start, kernel_reserved_end } =>
                String::from_str("initramfs start ").concat(hex_string(*start).as_str()).concat(
                " overlaps kernel reservation ending at ",
            ).concat(hex_string(*kernel_reserved_end).as_str()),
            LinuxBootLayoutError::E820TooManyEntries { count, max } => String::from_str(
                "e820 entry count ",
            ).concat(decimal_string(*count as u64).as_str()).concat(" exceeds boot_params cap ")
                .concat(decimal_string(*max as u64).as_str()),
        }
    }
}

impl BootError {
    /// What the error says.
    pub fn message(&self) -> (s: String)
        ensures
            s@ == boot_error_text(*self),
    {
        match self {
            BootError::Elf(m) => String::from_str("elf: ").concat(m.as_str()),
            BootError::Mem(m) => String::from_str("guest memory: ").concat(m.as_str()),
            BootError::Kvm(m) => String::from_str("kvm: ").concat(m.as_str()),
            BootError::CmdlineTooLong => String::from_str("cmdline exceeds ").concat(
                decimal_string(MAX_CMDLINE as u64).as_str(),
            ).concat(" bytes"),
        }
    }
}

} // verus!

//! Machine configuration and its canonical encoding, the byte-stable
//! preimage of `machine_config_hash`. Fixed field order, little-endian,
//! length-prefixed variable parts. The landing knobs (`skid_margin`,
//! `resync_slack`) are carried but never encoded.

use crate::codec::{
    from_le16, from_le32, from_le64, le16, le32, le64, lemma_le16_of_bytes, lemma_le16_roundtrip,
    lemma_le32_of_bytes, lemma_le32_roundtrip, lemma_le64_of_bytes, lemma_le64_roundtrip,
    push_bytes, push_le16, push_le32, push_le64, u32_at, u64_at, lemma_sub_left, lemma_sub_right,
    lemma_sub_sub, lemma_concat_ranges,
};
use crate::digest::{blake3_digest, blake3_hash};
use crate::vt::ClockRatio;
use vstd::prelude::*;

mod cmdline;

pub use cmdline::{
    bzimage_cmdline_extras_from_canonical, bzimage_forced_cmdline,
    canonicalize_bzimage_cmdline_extras, compose_bzimage_cmdline, forced_cmdline,
    canonical_extras, lemma_canonical_line_is_recovered, lemma_extras_from_canonical_roundtrip,
    spec_canonicalize, spec_compose,
    spec_extras_from_canonical, spec_parse_extras, spec_validate_canonical,
    BzImageCmdlineExtras,
};

verus! {

pub const CONFIG_VERSION: u32 = 1;

pub const MEM_ALIGN: u64 = 2097152;

pub const DEFAULT_EPOCH_LEN: u64 = 50000000;

pub const DEFAULT_SKID_MARGIN: u32 = 8192;

pub const DEFAULT_RESYNC_SLACK: u32 = 1024;

/// Hard bounds on the variable-length parts of the frozen format.
pub const MAX_CMDLINE: usize = 4096;

pub const MAX_CPUID_LEAVES: usize = 4096;

pub const MAX_DEVICES: usize = 256;

/// Bytes of one encoded CPUID leaf.
pub const LEAF_BYTES: usize = 28;

/// One masked CPUID leaf. `flags` carries the KVM entry flags, which shape
/// subleaf dispatch and so are part of the preimage.
#[derive(Clone, Copy, Debug, PartialEq, Eq, Structural)]
pub struct CpuidLeaf {
    pub function: u32,
    pub index: u32,
    pub flags: u32,
    pub eax: u32,
    pub ebx: u32,
    pub ecx: u32,
    pub edx: u32,
}

/// The canonical encoding of one leaf: its seven words, little-endian.
pub open spec fn leaf_bytes(l: CpuidLeaf) -> Seq<u8> {
    le32(l.function) + le32(l.index) + le32(l.flags) + le32(l.eax) + le32(l.ebx) + le32(l.ecx)
        + le32(l.edx)
}

/// The encodings of a table's leaves, back to back.
pub open spec fn leaves_bytes(t: Seq<CpuidLeaf>) -> Seq<u8>
    decreases t.len(),
{
    if t.len() == 0 {
        Seq::empty()
    } else {
        leaves_bytes(t.drop_last()) + leaf_bytes(t.last())
    }
}

/// The little-endian device ids, back to back.
pub open spec fn devices_bytes(d: Seq<u16>) -> Seq<u8>
    decreases d.len(),
{
    if d.len() == 0 {
        Seq::empty()
    } else {
        devices_bytes(d.drop_last()) + le16(d.last())
    }
}

impl CpuidLeaf {
    /// Append the canonical leaf encoding, the one preimage shared by the
    /// machine-config encoding and the CPUID table hash.
    pub fn encode_into(&self, out: &mut Vec<u8>)
        ensures
            final(out)@ == old(out)@ + leaf_bytes(*self),
    {
        push_le32(out, self.function);
        push_le32(out, self.index);
        push_le32(out, self.flags);
        push_le32(out, self.eax);
        push_le32(out, self.ebx);
        push_le32(out, self.ecx);
        push_le32(out, self.edx);
        assert(out@ =~= old(out)@ + leaf_bytes(*self));
    }
}

proof fn lemma_leaves_prefix(t: Seq<CpuidLeaf>, i: int)
    requires
        0 <= i < t.len(),
    ensures
        leaves_bytes(t.subrange(0, i + 1)) == leaves_bytes(t.subrange(0, i)) + leaf_bytes(t[i]),
{
    assert(t.subrange(0, i + 1).drop_last() =~= t.subrange(0, i));
}

proof fn lemma_devices_prefix(d: Seq<u16>, i: int)
    requires
        0 <= i < d.len(),
    ensures
        devices_bytes(d.subrange(0, i + 1)) == devices_bytes(d.subrange(0, i)) + le16(d[i]),
{
    assert(d.subrange(0, i + 1).drop_last() =~= d.subrange(0, i));
}

/// The bytes a leaf table is hashed over.
fn encode_leaves(leaves: &[CpuidLeaf], out: &mut Vec<u8>)
    ensures
        final(out)@ == old(out)@ + leaves_bytes(leaves@),
{
    let ghost start = out@;
    let mut i: usize = 0;
    assert(leaves@.subrange(0, 0) =~= Seq::<CpuidLeaf>::empty());
    while i < leaves.len()
        invariant
            i <= leaves@.len(),
            out@ == start + leaves_bytes(leaves@.subrange(0, i as int)),
        decreases leaves@.len() - i,
    {
        let ghost before = out@;
        leaves[i].encode_into(out);
        proof {
            lemma_leaves_prefix(leaves@, i as int);
            assert(out@ =~= start + leaves_bytes(leaves@.subrange(0, i + 1)));
        }
        i = i + 1;
    }
    assert(leaves@.subrange(0, leaves@.len() as int) =~= leaves@);
}

/// Canonical hash of a sorted leaf table: BLAKE3 over the leaf encodings.
pub fn cpuid_leaves_hash(leaves: &[CpuidLeaf]) -> (r: [u8; 32])
    ensures
        r@ == blake3_digest(leaves_bytes(leaves@)),
{
    let mut bytes: Vec<u8> = Vec::new();
    encode_leaves(leaves, &mut bytes);
    assert(bytes@ =~= leaves_bytes(leaves@));
    blake3_hash(bytes.as_slice())
}

/// Boot selection. The command line of a bzImage boot must be canonical.
#[derive(Clone, Debug, PartialEq, Eq)]
pub enum BootSpec {
    Elf { kernel_hash: [u8; 32], cmdline: Vec<u8> },
    BzImage { kernel_hash: [u8; 32], initramfs_hash: [u8; 32], cmdline: Vec<u8> },
}

#[derive(Clone, Copy, Debug, PartialEq, Eq, Structural)]
pub enum HashEpochs {
    EpochsOn,
    FinalOnly,
}

/// Configuration rule violations.
#[derive(Clone, Copy, Debug, PartialEq, Eq, Structural)]
pub enum ConfigError {
    UnsupportedVersion,
    MemNotAligned,
    VcpusNotOne,
    ZeroEpochLen,
    CmdlineTooLong,
    BzImageCmdlineNonAscii,
    BzImageCmdlineNul,
    BzImageCmdlineEmptyToken,
    BzImageCmdlineUnsupportedToken,
    BzImageCmdlineDuplicateToken,
    BzImageCmdlineBaselineOverride,
    BzImageCmdlineNotCanonical,
    CpuidTableTooLarge,
    DeviceSetTooLarge,
    CpuidTableUnsorted,
    DeviceSetUnsorted,
}

/// Why a byte string is not a canonical machine configuration.
#[derive(Clone, Debug, PartialEq, Eq)]
pub enum ConfigDecodeError {
    BadMagic,
    Truncated,
    TrailingBytes { trailing: usize },
    BadBootTag { found: u8 },
    BadHashEpochs { found: u8 },
    ZeroClockTerm,
    LengthTooLarge { field: &'static str, len: usize, max: usize },
    InvalidConfig(ConfigError),
}

#[derive(Clone, Debug, PartialEq, Eq)]
pub struct MachineConfig {
    /// Config schema version (currently 1).
    pub version: u32,
    /// Guest memory, a nonzero multiple of 2 MiB.
    pub mem_bytes: u64,
    /// Must be 1.
    pub vcpus: u32,
    /// Virtual ns per instruction, fixed for the VM lifetime.
    pub clock: ClockRatio,
    /// BLAKE3 of the base disk image.
    pub base_image_hash: [u8; 32],
    pub boot: BootSpec,
    /// Instructions per epoch (hash grid).
    pub epoch_len: u64,
    pub hash_epochs: HashEpochs,
    /// PMI landing margin; a landing knob, not encoded.
    pub skid_margin: u32,
    /// Single-step refinement slack; a landing knob, not encoded.
    pub resync_slack: u32,
    /// Masked CPUID table, sorted by (function, index), unique.
    pub cpuid_table: Vec<CpuidLeaf>,
    /// Device ids on the MMIO bus, sorted, unique.
    pub device_set: Vec<u16>,
}

/// The mathematical content of a [`BootSpec`].
pub enum BootModel {
    Elf { kernel_hash: Seq<u8>, cmdline: Seq<u8> },
    BzImage { kernel_hash: Seq<u8>, initramfs_hash: Seq<u8>, cmdline: Seq<u8> },
}

/// The mathematical content of a [`MachineConfig`].
pub struct ConfigModel {
    pub version: u32,
    pub mem_bytes: u64,
    pub vcpus: u32,
    pub clock_num: u32,
    pub clock_den: u32,
    pub base_image_hash: Seq<u8>,
    pub boot: BootModel,
    pub epoch_len: u64,
    pub hash_epochs: HashEpochs,
    pub skid_margin: u32,
    pub resync_slack: u32,
    pub cpuid_table: Seq<CpuidLeaf>,
    pub device_set: Seq<u16>,
}

impl View for BootSpec {
    type V = BootModel;

    open spec fn view(&self) -> BootModel {
        match self {
            BootSpec::Elf { kernel_hash, cmdline } => BootModel::Elf {
                kernel_hash: kernel_hash@,
                cmdline: cmdline@,
            },
            BootSpec::BzImage { kernel_hash, initramfs_hash, cmdline } => BootModel::BzImage {
                kernel_hash: kernel_hash@,
                initramfs_hash: initramfs_hash@,
                cmdline: cmdline@,
            },
        }
    }
}

impl View for MachineConfig {
    type V = ConfigModel;

    open spec fn view(&self) -> ConfigModel {
        ConfigModel {
            version: self.version,
            mem_bytes: self.mem_bytes,
            vcpus: self.vcpus,
            clock_num: self.clock.num_spec() as u32,
            clock_den: self.clock.den_spec() as u32,
            base_image_hash: self.base_image_hash@,
            boot: self.boot@,
            epoch_len: self.epoch_len,
            hash_epochs: self.hash_epochs,
            skid_margin: self.skid_margin,
            resync_slack: self.resync_slack,
            cpuid_table: self.cpuid_table@,
            device_set: self.device_set@,
        }
    }
}

pub open spec fn boot_cmdline(b: BootModel) -> Seq<u8> {
    match b {
        BootModel::Elf { cmdline, .. } => cmdline,
        BootModel::BzImage { cmdline, .. } => cmdline,
    }
}

pub open spec fn leaf_key_lt(a: CpuidLeaf, b: CpuidLeaf) -> bool {
    a.function < b.function || (a.function == b.function && a.index < b.index)
}

/// Adjacent leaves strictly ascend by (function, index).
pub open spec fn cpuid_sorted(t: Seq<CpuidLeaf>) -> bool {
    forall|i: int| 0 <= i < t.len() - 1 ==> leaf_key_lt(#[trigger] t[i], t[i + 1])
}

/// Adjacent device ids strictly ascend.
pub open spec fn devices_sorted(d: Seq<u16>) -> bool {
    forall|i: int| 0 <= i < d.len() - 1 ==> #[trigger] d[i] < d[i + 1]
}

/// The configuration rules, checked in this order.
pub open spec fn spec_validate(m: ConfigModel) -> Result<(), ConfigError> {
    if m.version != CONFIG_VERSION {
        Err(ConfigError::UnsupportedVersion)
    } else if m.mem_bytes == 0 || m.mem_bytes % MEM_ALIGN != 0 {
        Err(ConfigError::MemNotAligned)
    } else if m.vcpus != 1 {
        Err(ConfigError::VcpusNotOne)
    } else if m.epoch_len == 0 {
        Err(ConfigError::ZeroEpochLen)
    } else if boot_cmdline(m.boot).len() > MAX_CMDLINE {
        Err(ConfigError::CmdlineTooLong)
    } else if m.boot is BzImage && spec_validate_canonical(boot_cmdline(m.boot)) is Err {
        spec_validate_canonical(boot_cmdline(m.boot))
    } else if m.cpuid_table.len() > MAX_CPUID_LEAVES {
        Err(ConfigError::CpuidTableTooLarge)
    } else if m.device_set.len() > MAX_DEVICES {
        Err(ConfigError::DeviceSetTooLarge)
    } else if !cpuid_sorted(m.cpuid_table) {
        Err(ConfigError::CpuidTableUnsorted)
    } else if !devices_sorted(m.device_set) {
        Err(ConfigError::DeviceSetUnsorted)
    } else {
        Ok(())
    }
}

/// `DHMCFG\0\0`, the 8-byte domain separator.
pub open spec fn config_magic() -> Seq<u8> {
    seq![68u8, 72, 77, 67, 70, 71, 0, 0]
}

#[verifier::opaque]
pub open spec fn boot_bytes(b: BootModel) -> Seq<u8> {
    match b {
        BootModel::Elf { kernel_hash, cmdline } => seq![1u8] + kernel_hash + le32(
            cmdline.len() as u32,
        ) + cmdline,
        BootModel::BzImage { kernel_hash, initramfs_hash, cmdline } => seq![2u8] + kernel_hash
            + initramfs_hash + le32(cmdline.len() as u32) + cmdline,
    }
}

pub open spec fn hash_epochs_tag(h: HashEpochs) -> u8 {
    match h {
        HashEpochs::EpochsOn => 1,
        HashEpochs::FinalOnly => 2,
    }
}

/// The fixed-width front of the encoding: magic, version, memory, vCPUs,
/// clock terms and base image hash (64 bytes).
#[verifier::opaque]
pub open spec fn encode_fixed(m: ConfigModel) -> Seq<u8> {
    config_magic() + le32(m.version) + le64(m.mem_bytes) + le32(m.vcpus) + le32(m.clock_num)
        + le32(m.clock_den) + m.base_image_hash
}

/// The part after the boot selection: epoch length, hash-epochs tag, then
/// the length-prefixed CPUID table and device set.
#[verifier::opaque]
pub open spec fn encode_tail(m: ConfigModel) -> Seq<u8> {
    le64(m.epoch_len) + seq![hash_epochs_tag(m.hash_epochs)] + le32(m.cpuid_table.len() as u32)
        + leaves_bytes(m.cpuid_table) + le32(m.device_set.len() as u32) + devices_bytes(
        m.device_set,
    )
}

/// The canonical encoding of a (valid) configuration.
pub open spec fn spec_encode(m: ConfigModel) -> Seq<u8> {
    encode_fixed(m) + boot_bytes(m.boot) + encode_tail(m)
}

/// Canonical encoding: refused for an invalid configuration.
pub open spec fn spec_canonical_encode(m: ConfigModel) -> Result<Seq<u8>, ConfigError> {
    match spec_validate(m) {
        Err(e) => Err(e),
        Ok(_) => Ok(spec_encode(m)),
    }
}

pub open spec fn leaf_at(b: Seq<u8>, k: int) -> CpuidLeaf {
    CpuidLeaf {
        function: u32_at(b, k),
        index: u32_at(b, k + 4),
        flags: u32_at(b, k + 8),
        eax: u32_at(b, k + 12),
        ebx: u32_at(b, k + 16),
        ecx: u32_at(b, k + 20),
        edx: u32_at(b, k + 24),
    }
}

/// `n` leaves read back to back from offset `k`.
pub open spec fn leaves_at(b: Seq<u8>, k: int, n: nat) -> Seq<CpuidLeaf> {
    Seq::new(n, |i: int| leaf_at(b, k + 28 * i))
}

/// `n` device ids read back to back from offset `k`.
pub open spec fn devices_at(b: Seq<u8>, k: int, n: nat) -> Seq<u16> {
    Seq::new(n, |i: int| from_le16(b.subrange(k + 2 * i, k + 2 * i + 2)))
}

/// Offset of the command line bytes for boot tag `tag`.
pub open spec fn cmdline_start(tag: u8) -> int {
    if tag == 1 {
        101
    } else {
        133
    }
}

pub open spec fn boot_at(b: Seq<u8>, tag: u8, len: int) -> BootModel {
    let cs = cmdline_start(tag);
    if tag == 1 {
        BootModel::Elf { kernel_hash: b.subrange(65, 97), cmdline: b.subrange(cs, cs + len) }
    } else {
        BootModel::BzImage {
            kernel_hash: b.subrange(65, 97),
            initramfs_hash: b.subrange(97, 129),
            cmdline: b.subrange(cs, cs + len),
        }
    }
}

pub open spec fn hash_epochs_of(tag: u8) -> HashEpochs {
    if tag == 1 {
        HashEpochs::EpochsOn
    } else {
        HashEpochs::FinalOnly
    }
}

/// The configuration decoded from `b` once the boot part, ending at `p`,
/// is known; the landing knobs take their defaults.
pub open spec fn decode_tail(b: Seq<u8>, boot: BootModel, p: int) -> Result<
    ConfigModel,
    ConfigDecodeError,
> {
    if b.len() < p + 9 {
        Err(ConfigDecodeError::Truncated)
    } else if b[p + 8] != 1 && b[p + 8] != 2 {
        Err(ConfigDecodeError::BadHashEpochs { found: b[p + 8] })
    } else if b.len() < p + 13 {
        Err(ConfigDecodeError::Truncated)
    } else if u32_at(b, p + 9) > MAX_CPUID_LEAVES {
        Err(ConfigDecodeError::InvalidConfig(ConfigError::CpuidTableTooLarge))
    } else {
        let n = u32_at(b, p + 9) as int;
        let q = p + 13 + 28 * n;
        if b.len() < q + 4 {
            Err(ConfigDecodeError::Truncated)
        } else if u32_at(b, q) > MAX_DEVICES {
            Err(ConfigDecodeError::InvalidConfig(ConfigError::DeviceSetTooLarge))
        } else {
            let d = u32_at(b, q) as int;
            let end = q + 4 + 2 * d;
            if b.len() < end {
                Err(ConfigDecodeError::Truncated)
            } else if b.len() > end {
                Err(ConfigDecodeError::TrailingBytes { trailing: (b.len() - end) as usize })
            } else {
                let m = ConfigModel {
                    version: u32_at(b, 8),
                    mem_bytes: u64_at(b, 12),
                    vcpus: u32_at(b, 20),
                    clock_num: u32_at(b, 24),
                    clock_den: u32_at(b, 28),
                    base_image_hash: b.subrange(32, 64),
                    boot: boot,
                    epoch_len: u64_at(b, p),
                    hash_epochs: hash_epochs_of(b[p + 8]),
                    skid_margin: DEFAULT_SKID_MARGIN,
                    resync_slack: DEFAULT_RESYNC_SLACK,
                    cpuid_table: leaves_at(b, p + 13, n as nat),
                    device_set: devices_at(b, q + 4, d as nat),
                };
                match spec_validate(m) {
                    Err(e) => Err(ConfigDecodeError::InvalidConfig(e)),
                    Ok(_) => Ok(m),
                }
            }
        }
    }
}

/// Decoding of the frozen canonical representation; the first field that
/// is missing or wrong decides the error.
pub open spec fn spec_decode(b: Seq<u8>) -> Result<ConfigModel, ConfigDecodeError> {
    if b.len() < 8 {
        Err(ConfigDecodeError::Truncated)
    } else if b.subrange(0, 8) != config_magic() {
        Err(ConfigDecodeError::BadMagic)
    } else if b.len() < 32 {
        Err(ConfigDecodeError::Truncated)
    } else if u32_at(b, 24) == 0 || u32_at(b, 28) == 0 {
        Err(ConfigDecodeError::ZeroClockTerm)
    } else if b.len() < 65 {
        Err(ConfigDecodeError::Truncated)
    } else if b[64] != 1 && b[64] != 2 {
        Err(ConfigDecodeError::BadBootTag { found: b[64] })
    } else if b.len() < cmdline_start(b[64]) {
        Err(ConfigDecodeError::Truncated)
    } else if u32_at(b, cmdline_start(b[64]) - 4) > MAX_CMDLINE {
        Err(
            ConfigDecodeError::LengthTooLarge {
                field: "cmdline",
                len: u32_at(b, cmdline_start(b[64]) - 4) as usize,
                max: MAX_CMDLINE,
            },
        )
    } else {
        let tag = b[64];
        let len = u32_at(b, cmdline_start(tag) - 4) as int;
        if b.len() < cmdline_start(tag) + len {
            Err(ConfigDecodeError::Truncated)
        } else {
            decode_tail(b, boot_at(b, tag, len), cmdline_start(tag) + len)
        }
    }
}

/// `m` with the landing knobs reset to their defaults.
pub open spec fn with_default_knobs(m: ConfigModel) -> ConfigModel {
    ConfigModel { skid_margin: DEFAULT_SKID_MARGIN, resync_slack: DEFAULT_RESYNC_SLACK, ..m }
}


fn magic_vec() -> (r: Vec<u8>)
    ensures
        r@ == config_magic(),
{
    let v = vec![68u8, 72, 77, 67, 70, 71, 0, 0];
    assert(v@ =~= config_magic());
    v
}

fn leaves_sorted(t: &[CpuidLeaf]) -> (r: bool)
    ensures
        r == cpuid_sorted(t@),
{
    let n = t.len();
    let mut i: usize = 1;
    while i < n
        invariant
            n == t@.len(),
            1 <= i,
            forall|k: int| 0 <= k < i - 1 && k < n - 1 ==> leaf_key_lt(#[trigger] t@[k], t@[k + 1]),
        decreases n - i,
    {
        let a = t[i - 1];
        let b = t[i];
        if !(a.function < b.function || (a.function == b.function && a.index < b.index)) {
            assert(!leaf_key_lt(t@[i - 1], t@[(i - 1) + 1]));
            return false;
        }
        i = i + 1;
    }
    true
}

fn ids_sorted(d: &[u16]) -> (r: bool)
    ensures
        r == devices_sorted(d@),
{
    let n = d.len();
    let mut i: usize = 1;
    while i < n
        invariant
            n == d@.len(),
            1 <= i,
            forall|k: int| 0 <= k < i - 1 && k < n - 1 ==> #[trigger] d@[k] < d@[k + 1],
        decreases n - i,
    {
        if !(d[i - 1] < d[i]) {
            assert(!(d@[i - 1] < d@[(i - 1) + 1]));
            return false;
        }
        i = i + 1;
    }
    true
}

fn hash_from(s: &[u8]) -> (r: [u8; 32])
    requires
        s@.len() == 32,
    ensures
        r@ == s@,
{
    let mut h = [0u8; 32];
    let mut i: usize = 0;
    while i < 32
        invariant
            s@.len() == 32,
            i <= 32,
            forall|k: int| 0 <= k < i ==> h@[k] == s@[k],
        decreases 32 - i,
    {
        h.set(i, s[i]);
        i = i + 1;
    }
    assert(h@ =~= s@);
    h
}

fn read_leaf(b: &[u8], at: usize) -> (l: CpuidLeaf)
    requires
        at + 28 <= b@.len(),
    ensures
        l == leaf_at(b@, at as int),
{
    let n = b.len();
    CpuidLeaf {
        function: crate::codec::read_le32(b, at),
        index: crate::codec::read_le32(b, at + 4),
        flags: crate::codec::read_le32(b, at + 8),
        eax: crate::codec::read_le32(b, at + 12),
        ebx: crate::codec::read_le32(b, at + 16),
        ecx: crate::codec::read_le32(b, at + 20),
        edx: crate::codec::read_le32(b, at + 24),
    }
}

impl MachineConfig {
    /// Defaults around a caller-supplied boot and memory size: version 1,
    /// one vCPU, the 1:1 clock, the default epoch and landing knobs, the
    /// epoch grid on, no CPUID leaves and no devices.
    pub fn new(mem_bytes: u64, base_image_hash: [u8; 32], boot: BootSpec) -> (r: Self)
        ensures
            r.version == CONFIG_VERSION,
            r.mem_bytes == mem_bytes,
            r.vcpus == 1,
            r.clock.num_spec() == 1 && r.clock.den_spec() == 1,
            r.base_image_hash == base_image_hash,
            r.boot == boot,
            r.epoch_len == DEFAULT_EPOCH_LEN,
            r.hash_epochs == HashEpochs::EpochsOn,
            r.skid_margin == DEFAULT_SKID_MARGIN,
            r.resync_slack == DEFAULT_RESYNC_SLACK,
            r.cpuid_table@ == Seq::<CpuidLeaf>::empty(),
            r.device_set@ == Seq::<u16>::empty(),
    {
        MachineConfig {
            version: CONFIG_VERSION,
            mem_bytes,
            vcpus: 1,
            clock: ClockRatio::one_to_one(),
            base_image_hash,
            boot,
            epoch_len: DEFAULT_EPOCH_LEN,
            hash_epochs: HashEpochs::EpochsOn,
            skid_margin: DEFAULT_SKID_MARGIN,
            resync_slack: DEFAULT_RESYNC_SLACK,
            cpuid_table: Vec::new(),
            device_set: Vec::new(),
        }
    }

    /// The configuration rules; the first one broken is reported.
    pub fn validate(&self) -> (r: Result<(), ConfigError>)
        ensures
            r == spec_validate(self@),
    {
        if self.version != CONFIG_VERSION {
            return Err(ConfigError::UnsupportedVersion);
        }
        if self.mem_bytes == 0 || self.mem_bytes % MEM_ALIGN != 0 {
            return Err(ConfigError::MemNotAligned);
        }
        if self.vcpus != 1 {
            return Err(ConfigError::VcpusNotOne);
        }
        if self.epoch_len == 0 {
            return Err(ConfigError::ZeroEpochLen);
        }
        let cmdline = match &self.boot {
            BootSpec::Elf { cmdline, .. } => cmdline,
            BootSpec::BzImage { cmdline, .. } => cmdline,
        };
        if cmdline.len() > MAX_CMDLINE {
            return Err(ConfigError::CmdlineTooLong);
        }
        match &self.boot {
            BootSpec::BzImage { cmdline, .. } => {
                match cmdline::validate_canonical_bzimage_cmdline(cmdline.as_slice()) {
                    Err(e) => return Err(e),
                    Ok(_) => {},
                }
            },
            BootSpec::Elf { .. } => {},
        }
        if self.cpuid_table.len() > MAX_CPUID_LEAVES {
            return Err(ConfigError::CpuidTableTooLarge);
        }
        if self.device_set.len() > MAX_DEVICES {
            return Err(ConfigError::DeviceSetTooLarge);
        }
        if !leaves_sorted(self.cpuid_table.as_slice()) {
            return Err(ConfigError::CpuidTableUnsorted);
        }
        if !ids_sorted(self.device_set.as_slice()) {
            return Err(ConfigError::DeviceSetUnsorted);
        }
        Ok(())
    }

    /// Canonical encoding, the `machine_config_hash` preimage. An invalid
    /// configuration has no canonical form.
    #[verifier::rlimit(40)]
    pub fn canonical_encode(&self) -> (r: Result<Vec<u8>, ConfigError>)
        ensures
            match spec_canonical_encode(self@) {
                Ok(b) => r matches Ok(v) && v@ == b,
                Err(e) => r == Err::<Vec<u8>, ConfigError>(e),
            },
    {
        match self.validate() {
            Err(e) => return Err(e),
            Ok(_) => {},
        }
        let ghost m = self@;
        proof {
            reveal(encode_fixed);
            reveal(boot_bytes);
            reveal(encode_tail);
        }
        let mut out: Vec<u8> = magic_vec();
        push_le32(&mut out, self.version);
        push_le64(&mut out, self.mem_bytes);
        push_le32(&mut out, self.vcpus);
        push_le32(&mut out, self.clock.num());
        push_le32(&mut out, self.clock.den());
        push_bytes(&mut out, self.base_image_hash.as_slice());
        let ghost head = out@;
        assert(head == encode_fixed(m));
        match &self.boot {
            BootSpec::Elf { kernel_hash, cmdline } => {
                out.push(1u8);
                push_bytes(&mut out, kernel_hash.as_slice());
                push_le32(&mut out, cmdline.len() as u32);
                push_bytes(&mut out, cmdline.as_slice());
            },
            BootSpec::BzImage { kernel_hash, initramfs_hash, cmdline } => {
                out.push(2u8);
                push_bytes(&mut out, kernel_hash.as_slice());
                push_bytes(&mut out, initramfs_hash.as_slice());
                push_le32(&mut out, cmdline.len() as u32);
                push_bytes(&mut out, cmdline.as_slice());
            },
        }
        assert(out@ =~= head + boot_bytes(m.boot));
        let ghost with_boot = out@;
        push_le64(&mut out, self.epoch_len);
        match self.hash_epochs {
            HashEpochs::EpochsOn => out.push(1u8),
            HashEpochs::FinalOnly => out.push(2u8),
        }
        assert(out@ =~= with_boot + (le64(m.epoch_len) + seq![hash_epochs_tag(m.hash_epochs)]));
        let ghost with_tag = out@;
        push_le32(&mut out, self.cpuid_table.len() as u32);
        encode_leaves(self.cpuid_table.as_slice(), &mut out);
        push_le32(&mut out, self.device_set.len() as u32);
        let ghost before_devs = out@;
        assert(before_devs == with_tag + le32(m.cpuid_table.len() as u32) + leaves_bytes(
            m.cpuid_table,
        ) + le32(m.device_set.len() as u32));
        let ghost tail_head = le64(m.epoch_len) + seq![hash_epochs_tag(m.hash_epochs)] + le32(
            m.cpuid_table.len() as u32,
        ) + leaves_bytes(m.cpuid_table) + le32(m.device_set.len() as u32);
        let mut i: usize = 0;
        assert(self.device_set@.subrange(0, 0) =~= Seq::<u16>::empty());
        while i < self.device_set.len()
            invariant
                i <= self.device_set@.len(),
                out@ == before_devs + devices_bytes(self.device_set@.subrange(0, i as int)),
            decreases self.device_set@.len() - i,
        {
            push_le16(&mut out, self.device_set[i]);
            proof {
                lemma_devices_prefix(self.device_set@, i as int);
                assert(out@ =~= before_devs + devices_bytes(self.device_set@.subrange(0, i + 1)));
            }
            i = i + 1;
        }
        assert(self.device_set@.subrange(0, self.device_set@.len() as int) =~= self.device_set@);
        assert(out@ =~= with_boot + (tail_head + devices_bytes(m.device_set)));
        Ok(out)
    }

    /// Decode the frozen canonical representation. Landing knobs are not
    /// in it, so they come back as their defaults.
    pub fn canonical_decode(bytes: &[u8]) -> (r: Result<MachineConfig, ConfigDecodeError>)
        ensures
            match spec_decode(bytes@) {
                Ok(m) => r matches Ok(c) && c@ == m,
                Err(e) => r == Err::<MachineConfig, ConfigDecodeError>(e),
            },
    {
        let ghost b = bytes@;
        let len = bytes.len();
        if len < 8 {
            return Err(ConfigDecodeError::Truncated);
        }
        let magic = magic_vec();
        let mut k: usize = 0;
        while k < 8
            invariant
                len == b.len(),
                b == bytes@,
                len >= 8,
                magic@ == config_magic(),
                k <= 8,
                forall|q: int| 0 <= q < k ==> b[q] == config_magic()[q],
            decreases 8 - k,
        {
            if bytes[k] != magic[k] {
                assert(b.subrange(0, 8)[k as int] != config_magic()[k as int]);
                return Err(ConfigDecodeError::BadMagic);
            }
            k = k + 1;
        }
        assert(b.subrange(0, 8) =~= config_magic());
        if len < 32 {
            return Err(ConfigDecodeError::Truncated);
        }
        let version = crate::codec::read_le32(bytes, 8);
        let mem_bytes = crate::codec::read_le64(bytes, 12);
        let vcpus = crate::codec::read_le32(bytes, 20);
        let num = crate::codec::read_le32(bytes, 24);
        let den = crate::codec::read_le32(bytes, 28);
        let clock = match ClockRatio::new(num, den) {
            Some(c) => c,
            None => return Err(ConfigDecodeError::ZeroClockTerm),
        };
        if len < 65 {
            return Err(ConfigDecodeError::Truncated);
        }
        let base_image_hash = hash_from(vstd::slice::slice_subrange(bytes, 32, 64));
        let tag = bytes[64];
        if tag != 1 && tag != 2 {
            return Err(ConfigDecodeError::BadBootTag { found: tag });
        }
        let cs: usize = if tag == 1 {
            101
        } else {
            133
        };
        if len < cs {
            return Err(ConfigDecodeError::Truncated);
        }
        let cl = crate::codec::read_le32(bytes, cs - 4);
        if cl as usize > MAX_CMDLINE {
            return Err(
                ConfigDecodeError::LengthTooLarge {
                    field: "cmdline",
                    len: cl as usize,
                    max: MAX_CMDLINE,
                },
            );
        }
        let cl = cl as usize;
        if len - cs < cl {
            return Err(ConfigDecodeError::Truncated);
        }
        let cmdline = vstd::slice::slice_to_vec(vstd::slice::slice_subrange(bytes, cs, cs + cl));
        let kernel_hash = hash_from(vstd::slice::slice_subrange(bytes, 65, 97));
        let boot = if tag == 1 {
            BootSpec::Elf { kernel_hash, cmdline }
        } else {
            let initramfs_hash = hash_from(vstd::slice::slice_subrange(bytes, 97, 129));
            BootSpec::BzImage { kernel_hash, initramfs_hash, cmdline }
        };
        assert(boot@ == boot_at(b, tag, cl as int)) by {
            assert(cmdline@ =~= b.subrange(cs as int, cs + cl));
        }
        let p = cs + cl;
        if len - p < 9 {
            return Err(ConfigDecodeError::Truncated);
        }
        let epoch_len = crate::codec::read_le64(bytes, p);
        let he = bytes[p + 8];
        if he != 1 && he != 2 {
            return Err(ConfigDecodeError::BadHashEpochs { found: he });
        }
        let hash_epochs = if he == 1 {
            HashEpochs::EpochsOn
        } else {
            HashEpochs::FinalOnly
        };
        if len - p < 13 {
            return Err(ConfigDecodeError::Truncated);
        }
        let n = crate::codec::read_le32(bytes, p + 9);
        if n as usize > MAX_CPUID_LEAVES {
            return Err(ConfigDecodeError::InvalidConfig(ConfigError::CpuidTableTooLarge));
        }
        let n = n as usize;
        let k0 = p + 13;
        if (len - k0) / 28 < n || len - k0 - 28 * n < 4 {
            return Err(ConfigDecodeError::Truncated);
        }
        let mut cpuid_table: Vec<CpuidLeaf> = Vec::new();
        let mut i: usize = 0;
        while i < n
            invariant
                len == b.len(),
                b == bytes@,
                k0 + 28 * n + 4 <= len,
                i <= n,
                cpuid_table@ == leaves_at(b, k0 as int, i as nat),
            decreases n - i,
        {
            let leaf = read_leaf(bytes, k0 + 28 * i);
            cpuid_table.push(leaf);
            i = i + 1;
            assert(cpuid_table@ =~= leaves_at(b, k0 as int, i as nat));
        }
        let q = k0 + 28 * n;
        let d = crate::codec::read_le32(bytes, q);
        if d as usize > MAX_DEVICES {
            return Err(ConfigDecodeError::InvalidConfig(ConfigError::DeviceSetTooLarge));
        }
        let d = d as usize;
        if (len - q - 4) / 2 < d {
            return Err(ConfigDecodeError::Truncated);
        }
        let mut device_set: Vec<u16> = Vec::new();
        let mut j: usize = 0;
        while j < d
            invariant
                len == b.len(),
                b == bytes@,
                q + 4 + 2 * d <= len,
                j <= d,
                device_set@ == devices_at(b, q + 4, j as nat),
            decreases d - j,
        {
            let id = crate::codec::read_le16(bytes, q + 4 + 2 * j);
            device_set.push(id);
            j = j + 1;
            assert(device_set@ =~= devices_at(b, q + 4, j as nat));
        }
        let end = q + 4 + 2 * d;
        if len != end {
            return Err(ConfigDecodeError::TrailingBytes { trailing: len - end });
        }
        let config = MachineConfig {
            version,
            mem_bytes,
            vcpus,
            clock,
            base_image_hash,
            boot,
            epoch_len,
            hash_epochs,
            skid_margin: DEFAULT_SKID_MARGIN,
            resync_slack: DEFAULT_RESYNC_SLACK,
            cpuid_table,
            device_set,
        };
        match config.validate() {
            Err(e) => Err(ConfigDecodeError::InvalidConfig(e)),
            Ok(_) => Ok(config),
        }
    }

    /// `machine_config_hash`: BLAKE3 of the canonical encoding.
    pub fn config_hash(&self) -> (r: Result<[u8; 32], ConfigError>)
        ensures
            match spec_canonical_encode(self@) {
                Ok(b) => r matches Ok(h) && h@ == blake3_digest(b),
                Err(e) => r == Err::<[u8; 32], ConfigError>(e),
            },
    {
        match self.canonical_encode() {
            Err(e) => Err(e),
            Ok(bytes) => Ok(blake3_hash(bytes.as_slice())),
        }
    }
}

impl BootSpec {
    /// The command line a bzImage boot hands the kernel: the canonical one
    /// of the config (refused if not canonical); none for an ELF boot.
    pub fn bzimage_boot_params_cmdline(&self) -> (r: Result<Option<&[u8]>, ConfigError>)
        ensures
            match self@ {
                BootModel::Elf { .. } => r == Ok::<Option<&[u8]>, ConfigError>(None),
                BootModel::BzImage { cmdline, .. } => match spec_validate_canonical(cmdline) {
                    Err(e) => r == Err::<Option<&[u8]>, ConfigError>(e),
                    Ok(_) => r matches Ok(Some(s)) && s@ == cmdline,
                },
            },
    {
        match self {
            BootSpec::Elf { .. } => Ok(None),
            BootSpec::BzImage { cmdline, .. } => {
                match cmdline::validate_canonical_bzimage_cmdline(cmdline.as_slice()) {
                    Err(e) => Err(e),
                    Ok(_) => Ok(Some(cmdline.as_slice())),
                }
            },
        }
    }
}


// ---------------------------------------------------------------------
// Laws of the canonical encoding.

/// What the types guarantee of a model: 32-byte hashes, nonzero clock.
pub open spec fn model_well_typed(m: ConfigModel) -> bool {
    &&& m.clock_num != 0
    &&& m.clock_den != 0
    &&& m.base_image_hash.len() == 32
    &&& match m.boot {
        BootModel::Elf { kernel_hash, .. } => kernel_hash.len() == 32,
        BootModel::BzImage { kernel_hash, initramfs_hash, .. } => kernel_hash.len() == 32
            && initramfs_hash.len() == 32,
    }
}




proof fn lemma_leaves_layout(t: Seq<CpuidLeaf>)
    ensures
        leaves_bytes(t).len() == 28 * t.len(),
        forall|i: int|
            0 <= i < t.len() ==> #[trigger] leaves_bytes(t).subrange(28 * i, 28 * i + 28)
                == leaf_bytes(t[i]),
    decreases t.len(),
{
    if t.len() > 0 {
        let u = t.drop_last();
        lemma_leaves_layout(u);
        let x = leaves_bytes(u);
        let y = leaf_bytes(t.last());
        assert forall|i: int| 0 <= i < t.len() implies #[trigger] leaves_bytes(t).subrange(
            28 * i,
            28 * i + 28,
        ) == leaf_bytes(t[i]) by {
            if i < t.len() - 1 {
                lemma_sub_left(x, y, 28 * i, 28 * i + 28);
                assert(x.subrange(28 * i, 28 * i + 28) == leaf_bytes(u[i]));
            } else {
                lemma_sub_right(x, y, 0, 28);
                assert(y.subrange(0, 28) =~= y);
            }
        }
    }
}

proof fn lemma_devices_layout(d: Seq<u16>)
    ensures
        devices_bytes(d).len() == 2 * d.len(),
        forall|i: int|
            0 <= i < d.len() ==> #[trigger] devices_bytes(d).subrange(2 * i, 2 * i + 2) == le16(
                d[i],
            ),
    decreases d.len(),
{
    if d.len() > 0 {
        let u = d.drop_last();
        lemma_devices_layout(u);
        let x = devices_bytes(u);
        let y = le16(d.last());
        assert forall|i: int| 0 <= i < d.len() implies #[trigger] devices_bytes(d).subrange(
            2 * i,
            2 * i + 2,
        ) == le16(d[i]) by {
            if i < d.len() - 1 {
                lemma_sub_left(x, y, 2 * i, 2 * i + 2);
                assert(x.subrange(2 * i, 2 * i + 2) == le16(u[i]));
            } else {
                lemma_sub_right(x, y, 0, 2);
                assert(y.subrange(0, 2) =~= y);
            }
        }
    }
}

proof fn lemma_leaf_decodes(x: Seq<u8>, k: int, l: CpuidLeaf)
    requires
        0 <= k,
        k + 28 <= x.len(),
        x.subrange(k, k + 28) == leaf_bytes(l),
    ensures
        leaf_at(x, k) == l,
{
    let lb = leaf_bytes(l);
    assert(x.subrange(k, k + 4) =~= le32(l.function)) by {
        assert(x.subrange(k, k + 4) =~= lb.subrange(0, 4));
    }
    assert(x.subrange(k + 4, k + 8) =~= le32(l.index)) by {
        assert(x.subrange(k + 4, k + 8) =~= lb.subrange(4, 8));
    }
    assert(x.subrange(k + 8, k + 12) =~= le32(l.flags)) by {
        assert(x.subrange(k + 8, k + 12) =~= lb.subrange(8, 12));
    }
    assert(x.subrange(k + 12, k + 16) =~= le32(l.eax)) by {
        assert(x.subrange(k + 12, k + 16) =~= lb.subrange(12, 16));
    }
    assert(x.subrange(k + 16, k + 20) =~= le32(l.ebx)) by {
        assert(x.subrange(k + 16, k + 20) =~= lb.subrange(16, 20));
    }
    assert(x.subrange(k + 20, k + 24) =~= le32(l.ecx)) by {
        assert(x.subrange(k + 20, k + 24) =~= lb.subrange(20, 24));
    }
    assert(x.subrange(k + 24, k + 28) =~= le32(l.edx)) by {
        assert(x.subrange(k + 24, k + 28) =~= lb.subrange(24, 28));
    }
    lemma_le32_roundtrip(l.function);
    lemma_le32_roundtrip(l.index);
    lemma_le32_roundtrip(l.flags);
    lemma_le32_roundtrip(l.eax);
    lemma_le32_roundtrip(l.ebx);
    lemma_le32_roundtrip(l.ecx);
    lemma_le32_roundtrip(l.edx);
}

proof fn lemma_fixed_layout(m: ConfigModel)
    requires
        m.base_image_hash.len() == 32,
    ensures
        encode_fixed(m).len() == 64,
        encode_fixed(m).subrange(0, 8) == config_magic(),
        from_le32(encode_fixed(m).subrange(8, 12)) == m.version,
        from_le64(encode_fixed(m).subrange(12, 20)) == m.mem_bytes,
        from_le32(encode_fixed(m).subrange(20, 24)) == m.vcpus,
        from_le32(encode_fixed(m).subrange(24, 28)) == m.clock_num,
        from_le32(encode_fixed(m).subrange(28, 32)) == m.clock_den,
        encode_fixed(m).subrange(32, 64) == m.base_image_hash,
{
    reveal(encode_fixed);
    let f = encode_fixed(m);
    assert(f.subrange(0, 8) =~= config_magic());
    assert(f.subrange(8, 12) =~= le32(m.version));
    assert(f.subrange(12, 20) =~= le64(m.mem_bytes));
    assert(f.subrange(20, 24) =~= le32(m.vcpus));
    assert(f.subrange(24, 28) =~= le32(m.clock_num));
    assert(f.subrange(28, 32) =~= le32(m.clock_den));
    assert(f.subrange(32, 64) =~= m.base_image_hash);
    lemma_le32_roundtrip(m.version);
    lemma_le64_roundtrip(m.mem_bytes);
    lemma_le32_roundtrip(m.vcpus);
    lemma_le32_roundtrip(m.clock_num);
    lemma_le32_roundtrip(m.clock_den);
}

pub open spec fn boot_tag(b: BootModel) -> u8 {
    match b {
        BootModel::Elf { .. } => 1,
        BootModel::BzImage { .. } => 2,
    }
}

proof fn lemma_boot_layout(m: ConfigModel)
    requires
        model_well_typed(m),
        boot_cmdline(m.boot).len() <= MAX_CMDLINE,
    ensures
        ({
            let bb = boot_bytes(m.boot);
            let cl = boot_cmdline(m.boot);
            let o = cmdline_start(boot_tag(m.boot)) - 64;
            &&& bb.len() == o + cl.len()
            &&& bb[0] == boot_tag(m.boot)
            &&& from_le32(bb.subrange(o - 4, o)) == cl.len()
            &&& bb.subrange(o, o + cl.len()) == cl
            &&& (encode_fixed(m) + bb).subrange(65, 97) == match m.boot {
                BootModel::Elf { kernel_hash, .. } => kernel_hash,
                BootModel::BzImage { kernel_hash, .. } => kernel_hash,
            }
            &&& m.boot is BzImage ==> (encode_fixed(m) + bb).subrange(97, 129)
                == m.boot->initramfs_hash
        }),
{
    reveal(boot_bytes);
    let bb = boot_bytes(m.boot);
    let cl = boot_cmdline(m.boot);
    let f = encode_fixed(m);
    lemma_fixed_layout(m);
    lemma_le32_roundtrip(cl.len() as u32);
    match m.boot {
        BootModel::Elf { kernel_hash, cmdline } => {
            assert(bb.subrange(33, 37) =~= le32(cl.len() as u32));
            assert(bb.subrange(37, 37 + cl.len() as int) =~= cl);
            lemma_sub_right(f, bb, 1, 33);
            assert(bb.subrange(1, 33) =~= kernel_hash);
        },
        BootModel::BzImage { kernel_hash, initramfs_hash, cmdline } => {
            assert(bb.subrange(65, 69) =~= le32(cl.len() as u32));
            assert(bb.subrange(69, 69 + cl.len() as int) =~= cl);
            lemma_sub_right(f, bb, 1, 33);
            assert(bb.subrange(1, 33) =~= kernel_hash);
            lemma_sub_right(f, bb, 33, 65);
            assert(bb.subrange(33, 65) =~= initramfs_hash);
        },
    }
}

proof fn lemma_tail_layout(m: ConfigModel)
    requires
        m.cpuid_table.len() <= MAX_CPUID_LEAVES,
        m.device_set.len() <= MAX_DEVICES,
    ensures
        ({
            let t = encode_tail(m);
            let n = m.cpuid_table.len() as int;
            let d = m.device_set.len() as int;
            &&& t.len() == 17 + 28 * n + 2 * d
            &&& from_le64(t.subrange(0, 8)) == m.epoch_len
            &&& t[8] == hash_epochs_tag(m.hash_epochs)
            &&& from_le32(t.subrange(9, 13)) == n
            &&& t.subrange(13, 13 + 28 * n) == leaves_bytes(m.cpuid_table)
            &&& from_le32(t.subrange(13 + 28 * n, 17 + 28 * n)) == d
            &&& t.subrange(17 + 28 * n, 17 + 28 * n + 2 * d) == devices_bytes(m.device_set)
        }),
{
    reveal(encode_tail);
    let t = encode_tail(m);
    let n = m.cpuid_table.len() as int;
    let d = m.device_set.len() as int;
    lemma_leaves_layout(m.cpuid_table);
    lemma_devices_layout(m.device_set);
    assert(t.subrange(0, 8) =~= le64(m.epoch_len));
    assert(t.subrange(9, 13) =~= le32(n as u32));
    assert(t.subrange(13, 13 + 28 * n) =~= leaves_bytes(m.cpuid_table));
    assert(t.subrange(13 + 28 * n, 17 + 28 * n) =~= le32(d as u32));
    assert(t.subrange(17 + 28 * n, 17 + 28 * n + 2 * d) =~= devices_bytes(m.device_set));
    lemma_le64_roundtrip(m.epoch_len);
    lemma_le32_roundtrip(n as u32);
    lemma_le32_roundtrip(d as u32);
}

/// Where the boot part of the encoding of `m` ends.
/// The size bounds that validation guarantees.
pub open spec fn model_bounded(m: ConfigModel) -> bool {
    &&& boot_cmdline(m.boot).len() <= MAX_CMDLINE
    &&& m.cpuid_table.len() <= MAX_CPUID_LEAVES
    &&& m.device_set.len() <= MAX_DEVICES
}

pub open spec fn boot_end(m: ConfigModel) -> int {
    cmdline_start(boot_tag(m.boot)) + boot_cmdline(m.boot).len()
}

proof fn lemma_encode_front(m: ConfigModel)
    requires
        model_well_typed(m),
        model_bounded(m),
    ensures
        ({
            let e = spec_encode(m);
            let tag = boot_tag(m.boot);
            let cs = cmdline_start(tag);
            let cl = boot_cmdline(m.boot);
            &&& e.len() >= boot_end(m) + 17
            &&& e.subrange(0, 8) == config_magic()
            &&& u32_at(e, 8) == m.version
            &&& u64_at(e, 12) == m.mem_bytes
            &&& u32_at(e, 20) == m.vcpus
            &&& u32_at(e, 24) == m.clock_num
            &&& u32_at(e, 28) == m.clock_den
            &&& e.subrange(32, 64) == m.base_image_hash
            &&& e[64] == tag
            &&& u32_at(e, cs - 4) == cl.len()
            &&& boot_at(e, tag, cl.len() as int) == m.boot
        }),
{
    let f = encode_fixed(m);
    let bb = boot_bytes(m.boot);
    let t = encode_tail(m);
    let hb = f + bb;
    let e = spec_encode(m);
    lemma_fixed_layout(m);
    lemma_boot_layout(m);
    lemma_tail_layout(m);
    let tag = boot_tag(m.boot);
    let cl = boot_cmdline(m.boot);
    let cs = cmdline_start(tag);
    let p = cs + cl.len();
    assert(hb.len() == p);
    assert(e == hb + t);
    lemma_sub_left(hb, t, 0, 8);
    lemma_sub_left(f, bb, 0, 8);
    lemma_sub_left(hb, t, 24, 28);
    lemma_sub_left(f, bb, 24, 28);
    lemma_sub_left(hb, t, 28, 32);
    lemma_sub_left(f, bb, 28, 32);
    lemma_sub_left(hb, t, 8, 12);
    lemma_sub_left(f, bb, 8, 12);
    lemma_sub_left(hb, t, 12, 20);
    lemma_sub_left(f, bb, 12, 20);
    lemma_sub_left(hb, t, 20, 24);
    lemma_sub_left(f, bb, 20, 24);
    lemma_sub_left(hb, t, 32, 64);
    lemma_sub_left(f, bb, 32, 64);
    assert(e[64] == tag);
    lemma_sub_left(hb, t, cs - 4, cs);
    lemma_sub_right(f, bb, cs - 68, cs - 64);
    lemma_sub_left(hb, t, cs, p);
    lemma_sub_right(f, bb, cs - 64, p - 64);
    lemma_sub_left(hb, t, 65, 97);
    if tag == 2 {
        lemma_sub_left(hb, t, 97, 129);
    }
}

proof fn lemma_head_len(m: ConfigModel)
    requires
        model_well_typed(m),
        model_bounded(m),
    ensures
        (encode_fixed(m) + boot_bytes(m.boot)).len() == boot_end(m),
{
    lemma_fixed_layout(m);
    lemma_boot_layout(m);
}

#[verifier::rlimit(30)]
proof fn lemma_encode_back(m: ConfigModel)
    requires
        model_well_typed(m),
        model_bounded(m),
    ensures
        ({
            let e = spec_encode(m);
            let p = boot_end(m);
            let n = m.cpuid_table.len() as int;
            let d = m.device_set.len() as int;
            let q = p + 13 + 28 * n;
            &&& e.len() == q + 4 + 2 * d
            &&& u64_at(e, p) == m.epoch_len
            &&& e[p + 8] == hash_epochs_tag(m.hash_epochs)
            &&& u32_at(e, p + 9) == n
            &&& u32_at(e, q) == d
        }),
{
    let f = encode_fixed(m);
    let bb = boot_bytes(m.boot);
    let t = encode_tail(m);
    let hb = f + bb;
    let e = spec_encode(m);
    lemma_head_len(m);
    lemma_tail_layout(m);
    let p = boot_end(m);
    let n = m.cpuid_table.len() as int;
    let d = m.device_set.len() as int;
    let q = p + 13 + 28 * n;
    assert(hb.len() == p);
    lemma_sub_right(hb, t, 0, 8);
    lemma_sub_right(hb, t, 9, 13);
    lemma_sub_right(hb, t, 13 + 28 * n, 17 + 28 * n);
    assert(e[p + 8] == t[8]);
}

proof fn lemma_encode_leaves(m: ConfigModel)
    requires
        model_well_typed(m),
        model_bounded(m),
    ensures
        leaves_at(spec_encode(m), boot_end(m) + 13, m.cpuid_table.len()) == m.cpuid_table,
{
    let hb = encode_fixed(m) + boot_bytes(m.boot);
    let t = encode_tail(m);
    let n = m.cpuid_table.len() as int;
    lemma_head_len(m);
    lemma_tail_layout(m);
    lemma_sub_right(hb, t, 13, 13 + 28 * n);
    lemma_leaves_in(spec_encode(m), boot_end(m) + 13, m.cpuid_table);
}

proof fn lemma_encode_devices(m: ConfigModel)
    requires
        model_well_typed(m),
        model_bounded(m),
    ensures
        devices_at(
            spec_encode(m),
            boot_end(m) + 17 + 28 * m.cpuid_table.len(),
            m.device_set.len(),
        ) == m.device_set,
{
    let hb = encode_fixed(m) + boot_bytes(m.boot);
    let t = encode_tail(m);
    let n = m.cpuid_table.len() as int;
    let d = m.device_set.len() as int;
    lemma_head_len(m);
    lemma_tail_layout(m);
    lemma_sub_right(hb, t, 17 + 28 * n, 17 + 28 * n + 2 * d);
    lemma_devices_in(spec_encode(m), boot_end(m) + 17 + 28 * n, m.device_set);
}

proof fn lemma_leaves_in(x: Seq<u8>, k: int, tab: Seq<CpuidLeaf>)
    requires
        0 <= k,
        k + 28 * tab.len() <= x.len(),
        x.subrange(k, k + 28 * tab.len()) == leaves_bytes(tab),
    ensures
        leaves_at(x, k, tab.len()) == tab,
{
    let n = tab.len() as int;
    lemma_leaves_layout(tab);
    assert forall|i: int| 0 <= i < n implies #[trigger] leaves_at(x, k, n as nat)[i] == tab[i] by {
        lemma_sub_sub(x, k, k + 28 * n, 28 * i, 28 * i + 28);
        lemma_leaf_decodes(x, k + 28 * i, tab[i]);
    }
    assert(leaves_at(x, k, n as nat) =~= tab);
}

proof fn lemma_devices_in(x: Seq<u8>, k: int, ds: Seq<u16>)
    requires
        0 <= k,
        k + 2 * ds.len() <= x.len(),
        x.subrange(k, k + 2 * ds.len()) == devices_bytes(ds),
    ensures
        devices_at(x, k, ds.len()) == ds,
{
    let d = ds.len() as int;
    lemma_devices_layout(ds);
    assert forall|i: int| 0 <= i < d implies #[trigger] devices_at(x, k, d as nat)[i] == ds[i] by {
        lemma_sub_sub(x, k, k + 2 * d, 2 * i, 2 * i + 2);
        lemma_le16_roundtrip(ds[i]);
    }
    assert(devices_at(x, k, d as nat) =~= ds);
}

/// Decoding undoes encoding: a valid configuration decodes from its
/// canonical bytes to itself, with the landing knobs at their defaults.
pub proof fn lemma_decode_of_encode(m: ConfigModel)
    requires
        model_well_typed(m),
        spec_validate(m) is Ok,
    ensures
        spec_decode(spec_encode(m)) == Ok::<ConfigModel, ConfigDecodeError>(with_default_knobs(m)),
{
    lemma_encode_front(m);
    lemma_encode_back(m);
    lemma_encode_leaves(m);
    lemma_encode_devices(m);
    let e = spec_encode(m);
    let p = boot_end(m);
    let tag = boot_tag(m.boot);
    assert(hash_epochs_of(hash_epochs_tag(m.hash_epochs)) == m.hash_epochs);
    assert(spec_validate(with_default_knobs(m)) == spec_validate(m));
    assert(decode_tail(e, m.boot, p) == Ok::<ConfigModel, ConfigDecodeError>(with_default_knobs(m)));
}



proof fn lemma_leaf_bytes_of(b: Seq<u8>, k: int)
    requires
        0 <= k,
        k + 28 <= b.len(),
    ensures
        leaf_bytes(leaf_at(b, k)) == b.subrange(k, k + 28),
{
    lemma_le32_of_bytes(b.subrange(k, k + 4));
    lemma_le32_of_bytes(b.subrange(k + 4, k + 8));
    lemma_le32_of_bytes(b.subrange(k + 8, k + 12));
    lemma_le32_of_bytes(b.subrange(k + 12, k + 16));
    lemma_le32_of_bytes(b.subrange(k + 16, k + 20));
    lemma_le32_of_bytes(b.subrange(k + 20, k + 24));
    lemma_le32_of_bytes(b.subrange(k + 24, k + 28));
    assert(leaf_bytes(leaf_at(b, k)) =~= b.subrange(k, k + 28));
}

proof fn lemma_leaves_bytes_of(b: Seq<u8>, k: int, n: nat)
    requires
        0 <= k,
        k + 28 * n <= b.len(),
    ensures
        leaves_bytes(leaves_at(b, k, n)) == b.subrange(k, k + 28 * n),
    decreases n,
{
    if n == 0 {
        assert(b.subrange(k, k) =~= Seq::<u8>::empty());
    } else {
        let m = (n - 1) as nat;
        lemma_leaves_bytes_of(b, k, m);
        assert(leaves_at(b, k, n).drop_last() =~= leaves_at(b, k, m));
        lemma_leaf_bytes_of(b, k + 28 * m);
        lemma_concat_ranges(b, k, k + 28 * m, k + 28 * n);
    }
}

proof fn lemma_devices_bytes_of(b: Seq<u8>, k: int, n: nat)
    requires
        0 <= k,
        k + 2 * n <= b.len(),
    ensures
        devices_bytes(devices_at(b, k, n)) == b.subrange(k, k + 2 * n),
    decreases n,
{
    if n == 0 {
        assert(b.subrange(k, k) =~= Seq::<u8>::empty());
    } else {
        let m = (n - 1) as nat;
        lemma_devices_bytes_of(b, k, m);
        assert(devices_at(b, k, n).drop_last() =~= devices_at(b, k, m));
        lemma_le16_of_bytes(b.subrange(k + 2 * m, k + 2 * m + 2));
        lemma_concat_ranges(b, k, k + 2 * m, k + 2 * n);
    }
}

proof fn lemma_fixed_of_bytes(b: Seq<u8>, m: ConfigModel)
    requires
        b.len() >= 64,
        b.subrange(0, 8) == config_magic(),
        m.version == u32_at(b, 8),
        m.mem_bytes == u64_at(b, 12),
        m.vcpus == u32_at(b, 20),
        m.clock_num == u32_at(b, 24),
        m.clock_den == u32_at(b, 28),
        m.base_image_hash == b.subrange(32, 64),
    ensures
        encode_fixed(m) == b.subrange(0, 64),
{
    reveal(encode_fixed);
    lemma_le32_of_bytes(b.subrange(8, 12));
    lemma_le64_of_bytes(b.subrange(12, 20));
    lemma_le32_of_bytes(b.subrange(20, 24));
    lemma_le32_of_bytes(b.subrange(24, 28));
    lemma_le32_of_bytes(b.subrange(28, 32));
    assert(encode_fixed(m) =~= b.subrange(0, 64));
}

proof fn lemma_boot_of_bytes(b: Seq<u8>, tag: u8, len: int)
    requires
        tag == 1 || tag == 2,
        b[64] == tag,
        0 <= len <= MAX_CMDLINE,
        u32_at(b, cmdline_start(tag) - 4) == len,
        cmdline_start(tag) + len <= b.len(),
    ensures
        boot_bytes(boot_at(b, tag, len)) == b.subrange(64, cmdline_start(tag) + len),
{
    reveal(boot_bytes);
    let cs = cmdline_start(tag);
    lemma_le32_of_bytes(b.subrange(cs - 4, cs));
    assert(boot_bytes(boot_at(b, tag, len)) =~= b.subrange(64, cs + len));
}

proof fn lemma_tail_of_bytes(b: Seq<u8>, m: ConfigModel, p: int)
    requires
        0 <= p,
        p + 13 <= b.len(),
        m.epoch_len == u64_at(b, p),
        b[p + 8] == 1 || b[p + 8] == 2,
        m.hash_epochs == hash_epochs_of(b[p + 8]),
        m.cpuid_table.len() == u32_at(b, p + 9),
        m.cpuid_table == leaves_at(b, p + 13, m.cpuid_table.len()),
        p + 17 + 28 * m.cpuid_table.len() <= b.len(),
        m.device_set.len() == u32_at(b, p + 13 + 28 * m.cpuid_table.len()),
        m.device_set == devices_at(
            b,
            p + 17 + 28 * m.cpuid_table.len(),
            m.device_set.len(),
        ),
        b.len() == p + 17 + 28 * m.cpuid_table.len() + 2 * m.device_set.len(),
    ensures
        encode_tail(m) == b.subrange(p, b.len() as int),
{
    reveal(encode_tail);
    let n = m.cpuid_table.len();
    let d = m.device_set.len();
    let q = p + 13 + 28 * n;
    lemma_le64_of_bytes(b.subrange(p, p + 8));
    lemma_le32_of_bytes(b.subrange(p + 9, p + 13));
    lemma_le32_of_bytes(b.subrange(q, q + 4));
    lemma_leaves_bytes_of(b, p + 13, n);
    lemma_devices_bytes_of(b, q + 4, d);
    assert(seq![hash_epochs_tag(m.hash_epochs)] =~= b.subrange(p + 8, p + 9));
    lemma_concat_ranges(b, p, p + 8, p + 9);
    lemma_concat_ranges(b, p, p + 9, p + 13);
    lemma_concat_ranges(b, p, p + 13, q);
    lemma_concat_ranges(b, p, q, q + 4);
    lemma_concat_ranges(b, p, q + 4, b.len() as int);
}

/// Encoding undoes decoding: whatever decodes re-encodes to exactly the
/// bytes it came from, so the canonical form of a configuration is unique.
pub proof fn lemma_encode_of_decode(b: Seq<u8>)
    requires
        spec_decode(b) is Ok,
    ensures
        spec_encode(spec_decode(b)->Ok_0) == b,
{
    let m = spec_decode(b)->Ok_0;
    let tag = b[64];
    let cs = cmdline_start(tag);
    let len = u32_at(b, cs - 4) as int;
    let p = cs + len;
    lemma_fixed_of_bytes(b, m);
    lemma_boot_of_bytes(b, tag, len);
    assert(m.cpuid_table.len() == u32_at(b, p + 9));
    lemma_tail_of_bytes(b, m, p);
    lemma_concat_ranges(b, 0, 64, p);
    lemma_concat_ranges(b, 0, p, b.len() as int);
    assert(b.subrange(0, b.len() as int) =~= b);
}

/// The landing knobs never reach the canonical form: two configurations
/// that differ only in them encode (and so hash) alike.
pub proof fn lemma_knobs_not_encoded(a: ConfigModel, b: ConfigModel)
    requires
        with_default_knobs(a) == with_default_knobs(b),
    ensures
        spec_canonical_encode(a) == spec_canonical_encode(b),
{
    reveal(encode_fixed);
    reveal(encode_tail);
    assert(a.boot == b.boot);
    assert(a.cpuid_table == b.cpuid_table);
    assert(a.device_set == b.device_set);
    assert(a.base_image_hash == b.base_image_hash);
    assert(encode_fixed(a) == encode_fixed(b));
    assert(encode_tail(a) == encode_tail(b));
}

/// The canonical encoding is injective on valid configurations, up to the
/// landing knobs: equal bytes mean equal configurations.
pub proof fn lemma_encode_injective(a: ConfigModel, b: ConfigModel)
    requires
        model_well_typed(a),
        model_well_typed(b),
        spec_validate(a) is Ok,
        spec_validate(b) is Ok,
        spec_encode(a) == spec_encode(b),
    ensures
        with_default_knobs(a) == with_default_knobs(b),
{
    lemma_decode_of_encode(a);
    lemma_decode_of_encode(b);
}

} // verus!

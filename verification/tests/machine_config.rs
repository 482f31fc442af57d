use dh_vmm::config::{
    bzimage_cmdline_extras_from_canonical, bzimage_forced_cmdline, canonicalize_bzimage_cmdline_extras, compose_bzimage_cmdline,
    BootSpec, BzImageCmdlineExtras, ConfigDecodeError, ConfigError, CpuidLeaf, HashEpochs,
    MachineConfig, DEFAULT_EPOCH_LEN, DEFAULT_RESYNC_SLACK, DEFAULT_SKID_MARGIN, MAX_CMDLINE,
    MAX_DEVICES, MEM_ALIGN,
};
use dh_vmm::vt::ClockRatio;

fn config() -> MachineConfig {
    let mut c = MachineConfig::new(
        64 * 1024 * 1024,
        [0x11; 32],
        BootSpec::Elf {
            kernel_hash: [0x22; 32],
            cmdline: b"console=none".to_vec(),
        },
    );
    c.cpuid_table = vec![
        CpuidLeaf {
            function: 0,
            index: 0,
            flags: 0,
            eax: 0xD,
            ebx: 0,
            ecx: 0,
            edx: 0,
        },
        CpuidLeaf {
            function: 1,
            index: 0,
            flags: 0,
            eax: 0x0,
            ebx: 0,
            ecx: 0,
            edx: 0,
        },
    ];
    c.device_set = vec![1, 2, 3];
    c
}

fn forced_plus(extra: &[u8]) -> Vec<u8> {
    [bzimage_forced_cmdline().as_slice(), extra].concat()
}

#[test]
fn golden_canonical_bytes() {
    let bytes = config().canonical_encode().unwrap();
    let mut expected = Vec::new();
    expected.extend_from_slice(b"DHMCFG\0\0");
    expected.extend_from_slice(&1u32.to_le_bytes());
    expected.extend_from_slice(&(64u64 * 1024 * 1024).to_le_bytes());
    expected.extend_from_slice(&1u32.to_le_bytes());
    expected.extend_from_slice(&1u32.to_le_bytes());
    expected.extend_from_slice(&1u32.to_le_bytes());
    expected.extend_from_slice(&[0x11; 32]);
    expected.push(1);
    expected.extend_from_slice(&[0x22; 32]);
    expected.extend_from_slice(&12u32.to_le_bytes());
    expected.extend_from_slice(b"console=none");
    assert_eq!(&bytes[..expected.len()], &expected[..]);

    let tail = &bytes[expected.len()..];
    let mut exp_tail = Vec::new();
    exp_tail.extend_from_slice(&DEFAULT_EPOCH_LEN.to_le_bytes());
    exp_tail.push(1);
    exp_tail.extend_from_slice(&2u32.to_le_bytes());
    exp_tail.extend_from_slice(&0u32.to_le_bytes());
    exp_tail.extend_from_slice(&0u32.to_le_bytes());
    exp_tail.extend_from_slice(&0u32.to_le_bytes());
    exp_tail.extend_from_slice(&0xDu32.to_le_bytes());
    exp_tail.extend_from_slice(&[0u8; 12]);
    exp_tail.extend_from_slice(&1u32.to_le_bytes());
    exp_tail.extend_from_slice(&[0u8; 24]);
    exp_tail.extend_from_slice(&3u32.to_le_bytes());
    exp_tail.extend_from_slice(&1u16.to_le_bytes());
    exp_tail.extend_from_slice(&2u16.to_le_bytes());
    exp_tail.extend_from_slice(&3u16.to_le_bytes());
    assert_eq!(tail, &exp_tail[..]);
}

#[test]
fn hash_stable_and_field_sensitive() {
    let base = config();
    let h = base.config_hash().unwrap();
    assert_eq!(h, base.config_hash().unwrap());

    let mut c = config();
    c.mem_bytes += MEM_ALIGN;
    assert_ne!(h, c.config_hash().unwrap());

    let mut c = config();
    c.clock = ClockRatio::new(2, 1).unwrap();
    assert_ne!(h, c.config_hash().unwrap());

    let mut c = config();
    c.hash_epochs = HashEpochs::FinalOnly;
    assert_ne!(h, c.config_hash().unwrap());

    let mut c = config();
    c.device_set = vec![1, 2, 4];
    assert_ne!(h, c.config_hash().unwrap());

    let mut c = config();
    if let BootSpec::Elf { cmdline, .. } = &mut c.boot {
        cmdline.push(b'x');
    }
    assert_ne!(h, c.config_hash().unwrap());
}

#[test]
fn landing_knobs_do_not_fork_identity() {
    let h = config().config_hash().unwrap();
    let mut c = config();
    c.skid_margin = 16384;
    c.resync_slack = 4096;
    assert_eq!(h, c.config_hash().unwrap());
}

#[test]
fn length_prefixes_prevent_ambiguity() {
    let mk = |cmd: &[u8]| {
        let mut c = config();
        if let BootSpec::Elf { cmdline, .. } = &mut c.boot {
            *cmdline = cmd.to_vec();
        }
        c.config_hash().unwrap()
    };
    assert_ne!(mk(b"ab"), mk(b"a"));
    assert_ne!(mk(b""), mk(b"\0"));
}

#[test]
fn bzimage_variant_encodes() {
    let mut c = config();
    c.boot = BootSpec::BzImage {
        kernel_hash: [0x33; 32],
        initramfs_hash: [0x44; 32],
        cmdline: canonicalize_bzimage_cmdline_extras(b"quiet").unwrap(),
    };
    let bytes = c.canonical_encode().unwrap();
    assert_ne!(
        bytes,
        config().canonical_encode().unwrap(),
        "boot variant must be domain-separated"
    );
    assert!(bytes.windows(32).any(|w| w == [0x44; 32]));
}

#[test]
fn canonical_decode_round_trips_the_frozen_preimage() {
    let mut c = config();
    c.skid_margin = 16_384;
    c.resync_slack = 4_096;
    let bytes = c.canonical_encode().unwrap();
    let decoded = MachineConfig::canonical_decode(&bytes).unwrap();

    assert_eq!(decoded.canonical_encode().unwrap(), bytes);
    assert_eq!(decoded.version, c.version);
    assert_eq!(decoded.mem_bytes, c.mem_bytes);
    assert_eq!(decoded.vcpus, c.vcpus);
    assert_eq!(decoded.clock, c.clock);
    assert_eq!(decoded.base_image_hash, c.base_image_hash);
    assert_eq!(decoded.boot, c.boot);
    assert_eq!(decoded.epoch_len, c.epoch_len);
    assert_eq!(decoded.hash_epochs, c.hash_epochs);
    assert_eq!(decoded.cpuid_table, c.cpuid_table);
    assert_eq!(decoded.device_set, c.device_set);
    assert_eq!(decoded.skid_margin, DEFAULT_SKID_MARGIN);
    assert_eq!(decoded.resync_slack, DEFAULT_RESYNC_SLACK);
}

#[test]
fn canonical_decode_round_trips_bzimage() {
    let mut c = config();
    c.boot = BootSpec::BzImage {
        kernel_hash: [0x33; 32],
        initramfs_hash: [0x44; 32],
        cmdline: canonicalize_bzimage_cmdline_extras(b"quiet").unwrap(),
    };
    c.hash_epochs = HashEpochs::FinalOnly;
    let bytes = c.canonical_encode().unwrap();
    let decoded = MachineConfig::canonical_decode(&bytes).unwrap();
    assert_eq!(decoded.canonical_encode().unwrap(), bytes);
    assert_eq!(decoded.boot, c.boot);
    assert_eq!(decoded.hash_epochs, HashEpochs::FinalOnly);
}

#[test]
fn bzimage_cmdline_canonicalizes_allowed_extras() {
    assert_eq!(
        canonicalize_bzimage_cmdline_extras(b"").unwrap(),
        bzimage_forced_cmdline()
    );
    assert_eq!(
        canonicalize_bzimage_cmdline_extras(b"quiet").unwrap(),
        forced_plus(b" quiet")
    );
    assert_eq!(
        canonicalize_bzimage_cmdline_extras(b"loglevel=4 quiet").unwrap(),
        forced_plus(b" quiet loglevel=4"),
        "caller order normalizes to whitelist order"
    );
    assert_eq!(
        canonicalize_bzimage_cmdline_extras(b"quiet\tloglevel=7").unwrap(),
        forced_plus(b" quiet loglevel=7")
    );
}

#[test]
fn bzimage_cmdline_rejects_unsupported_duplicates_and_baseline_tokens() {
    assert_eq!(
        canonicalize_bzimage_cmdline_extras(b"root=/dev/vda"),
        Err(ConfigError::BzImageCmdlineUnsupportedToken)
    );
    assert_eq!(
        canonicalize_bzimage_cmdline_extras(b"quiet quiet"),
        Err(ConfigError::BzImageCmdlineDuplicateToken)
    );
    assert_eq!(
        canonicalize_bzimage_cmdline_extras(b"loglevel=3 loglevel=4"),
        Err(ConfigError::BzImageCmdlineDuplicateToken)
    );
    assert_eq!(
        canonicalize_bzimage_cmdline_extras(b"console=ttyS0"),
        Err(ConfigError::BzImageCmdlineBaselineOverride)
    );
    assert_eq!(
        canonicalize_bzimage_cmdline_extras(b"nokaslr"),
        Err(ConfigError::BzImageCmdlineBaselineOverride)
    );
    assert_eq!(
        canonicalize_bzimage_cmdline_extras(b"loglevel=8"),
        Err(ConfigError::BzImageCmdlineUnsupportedToken)
    );
    assert_eq!(
        canonicalize_bzimage_cmdline_extras(b"quiet  loglevel=3"),
        Err(ConfigError::BzImageCmdlineEmptyToken)
    );
    assert_eq!(
        canonicalize_bzimage_cmdline_extras(b"quiet\0"),
        Err(ConfigError::BzImageCmdlineNul)
    );
    assert_eq!(
        canonicalize_bzimage_cmdline_extras(b"quiet \xff"),
        Err(ConfigError::BzImageCmdlineNonAscii)
    );
}

#[test]
fn bzimage_config_requires_canonical_cmdline() {
    let mut c = config();
    c.boot = BootSpec::BzImage {
        kernel_hash: [0x33; 32],
        initramfs_hash: [0x44; 32],
        cmdline: b"quiet".to_vec(),
    };
    assert_eq!(c.validate(), Err(ConfigError::BzImageCmdlineNotCanonical));

    c.boot = BootSpec::BzImage {
        kernel_hash: [0x33; 32],
        initramfs_hash: [0x44; 32],
        cmdline: forced_plus(b" loglevel=4 quiet"),
    };
    assert_eq!(c.validate(), Err(ConfigError::BzImageCmdlineNotCanonical));
}

#[test]
fn bzimage_cmdline_max_is_checked_after_composition() {
    let baseline = vec![b'x'; MAX_CMDLINE + 1];
    assert_eq!(
        compose_bzimage_cmdline(&baseline, BzImageCmdlineExtras::default()),
        Err(ConfigError::CmdlineTooLong)
    );
}

#[test]
fn bzimage_hash_preimage_cmdline_matches_boot_params_bytes() {
    let canonical = canonicalize_bzimage_cmdline_extras(b"loglevel=3 quiet").unwrap();
    let mut c = config();
    c.boot = BootSpec::BzImage {
        kernel_hash: [0x33; 32],
        initramfs_hash: [0x44; 32],
        cmdline: canonical.clone(),
    };
    let bytes = c.canonical_encode().unwrap();
    let cmdline_len_off = 8 + 4 + 8 + 4 + 4 + 4 + 32 + 1 + 32 + 32;
    let len = u32::from_le_bytes(
        bytes[cmdline_len_off..cmdline_len_off + 4]
            .try_into()
            .unwrap(),
    ) as usize;
    let cmdline_off = cmdline_len_off + 4;
    let preimage_cmdline = &bytes[cmdline_off..cmdline_off + len];
    let boot_params_cmdline = c
        .boot
        .bzimage_boot_params_cmdline()
        .unwrap()
        .expect("BzImage cmdline");
    assert_eq!(preimage_cmdline, canonical);
    assert_eq!(boot_params_cmdline, canonical);
    assert_eq!(preimage_cmdline, boot_params_cmdline);
}

#[test]
fn canonical_decode_rejects_non_canonical_bytes() {
    assert_eq!(
        MachineConfig::canonical_decode(b"not-mcfg"),
        Err(ConfigDecodeError::BadMagic)
    );

    let mut bytes = config().canonical_encode().unwrap();
    bytes.push(0);
    assert_eq!(
        MachineConfig::canonical_decode(&bytes),
        Err(ConfigDecodeError::TrailingBytes { trailing: 1 })
    );

    let mut bytes = config().canonical_encode().unwrap();
    let boot_tag = 8 + 4 + 8 + 4 + 4 + 4 + 32;
    bytes[boot_tag] = 9;
    assert_eq!(
        MachineConfig::canonical_decode(&bytes),
        Err(ConfigDecodeError::BadBootTag { found: 9 })
    );

    let mut bytes = config().canonical_encode().unwrap();
    let hash_epochs = bytes
        .windows(DEFAULT_EPOCH_LEN.to_le_bytes().len())
        .position(|w| w == DEFAULT_EPOCH_LEN.to_le_bytes())
        .unwrap()
        + DEFAULT_EPOCH_LEN.to_le_bytes().len();
    bytes[hash_epochs] = 7;
    assert_eq!(
        MachineConfig::canonical_decode(&bytes),
        Err(ConfigDecodeError::BadHashEpochs { found: 7 })
    );

    let mut bytes = config().canonical_encode().unwrap();
    bytes[8..12].copy_from_slice(&2u32.to_le_bytes());
    assert_eq!(
        MachineConfig::canonical_decode(&bytes),
        Err(ConfigDecodeError::InvalidConfig(
            ConfigError::UnsupportedVersion
        ))
    );
}

#[test]
fn validation_rejects_bad_configs() {
    let mut c = config();
    c.mem_bytes = MEM_ALIGN + 1;
    assert_eq!(c.canonical_encode(), Err(ConfigError::MemNotAligned));

    let mut c = config();
    c.vcpus = 2;
    assert_eq!(c.validate(), Err(ConfigError::VcpusNotOne));

    let mut c = config();
    c.epoch_len = 0;
    assert_eq!(c.validate(), Err(ConfigError::ZeroEpochLen));

    let mut c = config();
    c.cpuid_table.swap(0, 1);
    assert_eq!(c.validate(), Err(ConfigError::CpuidTableUnsorted));

    let mut c = config();
    c.device_set = vec![2, 2];
    assert_eq!(c.validate(), Err(ConfigError::DeviceSetUnsorted));

    let mut c = config();
    if let BootSpec::Elf { cmdline, .. } = &mut c.boot {
        *cmdline = vec![0u8; MAX_CMDLINE + 1];
    }
    assert_eq!(c.validate(), Err(ConfigError::CmdlineTooLong));

    let mut c = config();
    c.device_set = (0..=(MAX_DEVICES as u16)).collect();
    assert_eq!(c.validate(), Err(ConfigError::DeviceSetTooLarge));
}

#[test]
fn entropy_seed_is_not_part_of_the_preimage() {
    let names = [
        "version",
        "mem_bytes",
        "vcpus",
        "clock",
        "base_image_hash",
        "boot",
        "epoch_len",
        "hash_epochs",
        "skid_margin",
        "resync_slack",
        "cpuid_table",
        "device_set",
    ];
    assert_eq!(names.len(), 12);
}

#[test]
fn extras_round_trip_through_the_canonical_cmdline() {
    let canonical = canonicalize_bzimage_cmdline_extras(b"loglevel=5 quiet").unwrap();
    let extras = dh_vmm::config::bzimage_cmdline_extras_from_canonical(&canonical).unwrap();
    assert_eq!(extras, b"quiet loglevel=5".to_vec());
    assert_eq!(canonicalize_bzimage_cmdline_extras(&extras).unwrap(), canonical);
}

#[test]
fn truncated_config_bytes_are_refused() {
    let bytes = config().canonical_encode().unwrap();
    assert_eq!(
        MachineConfig::canonical_decode(&bytes[..bytes.len() - 1]),
        Err(ConfigDecodeError::Truncated)
    );
}

#[test]
fn canonical_lines_are_recovered_and_recanonicalize() {
    for extras in [&b""[..], b"quiet", b"loglevel=4", b"loglevel=7 quiet", b"quiet\tloglevel=0"] {
        let c = canonicalize_bzimage_cmdline_extras(extras).unwrap();
        let x = bzimage_cmdline_extras_from_canonical(&c).unwrap();
        assert_eq!(canonicalize_bzimage_cmdline_extras(&x).unwrap(), c);
        if c == bzimage_forced_cmdline() {
            assert!(x.is_empty());
        }
    }
    assert_eq!(
        bzimage_cmdline_extras_from_canonical(b"quiet"),
        Err(ConfigError::BzImageCmdlineNotCanonical)
    );
    let mut reordered = bzimage_forced_cmdline();
    reordered.extend_from_slice(b" loglevel=4 quiet");
    assert_eq!(
        bzimage_cmdline_extras_from_canonical(&reordered),
        Err(ConfigError::BzImageCmdlineNotCanonical)
    );
}

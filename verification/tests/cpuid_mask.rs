use dh_vmm::config::CpuidLeaf;
use dh_vmm::cpuid::{
    cpuid_table_hash, mask_in_place, mask_leaf, to_leaves, L1_ECX_AVX, L1_ECX_MONITOR,
    L1_ECX_RDRAND, L1_ECX_TSC_DEADLINE, L1_ECX_X2APIC, L1_EDX_TSC, L7_EBX_RDSEED,
};

fn leaf(function: u32, index: u32, eax: u32, ebx: u32, ecx: u32, edx: u32) -> CpuidLeaf {
    CpuidLeaf {
        function,
        index,
        flags: 0,
        eax,
        ebx,
        ecx,
        edx,
    }
}

#[test]
fn mask_clears_the_documented_bits() {
    let l1 = mask_leaf(leaf(1, 0, 0x906ea, 0x0a10_0800, 0xffff_ffff, 0xffff_ffff));
    assert_eq!(l1.ecx & L1_ECX_RDRAND, 0);
    assert_eq!(l1.ecx & L1_ECX_TSC_DEADLINE, 0);
    assert_eq!(l1.ecx & L1_ECX_X2APIC, 0);
    assert_eq!(l1.ecx & L1_ECX_MONITOR, 0);
    assert_eq!(l1.ecx & L1_ECX_AVX, 0);
    assert_eq!(l1.edx & L1_EDX_TSC, 0);
    assert_eq!(l1.ebx & 0xFF00_0000, 0, "initial APIC ID byte");
    assert_eq!(l1.eax, 0x906ea);

    let l6 = mask_leaf(leaf(6, 0, 1, 2, 3, 4));
    assert_eq!((l6.eax, l6.ebx, l6.ecx, l6.edx), (0, 0, 0, 0));

    let l7 = mask_leaf(leaf(7, 0, 0, 0xffff_ffff, 0, 0));
    assert_eq!(l7.ebx & L7_EBX_RDSEED, 0);
    let l7_1 = mask_leaf(leaf(7, 1, 0, 0xffff_ffff, 0, 0));
    assert_eq!(l7_1.ebx, 0xffff_ffff, "only subleaf 0 of leaf 7 is masked");
}

#[test]
fn paravirt_leaves_are_removed() {
    let mut table = vec![
        leaf(0, 0, 0xd, 0, 0, 0),
        leaf(0x4000_0000, 0, 1, 2, 3, 4),
        leaf(0x4000_0001, 0, 1, 2, 3, 4),
        leaf(1, 0, 0, 0, 0xffff_ffff, 0),
    ];
    mask_in_place(&mut table);
    assert_eq!(table.len(), 2);
    assert!(table.iter().all(|e| !(0x4000_0000..0x4000_0100).contains(&e.function)));
    assert_eq!(table[1].ecx & L1_ECX_RDRAND, 0);
}

#[test]
fn hash_is_order_independent_and_mask_sensitive() {
    let table = vec![
        leaf(0, 0, 0xd, 0, 0, 0),
        leaf(1, 0, 0x906ea, 0, L1_ECX_RDRAND, 0),
        leaf(7, 0, 0, L7_EBX_RDSEED, 0, 0),
    ];
    let mut masked = table.clone();
    mask_in_place(&mut masked);
    assert_ne!(cpuid_table_hash(&table), cpuid_table_hash(&masked));
    assert_eq!(cpuid_table_hash(&masked), cpuid_table_hash(&masked));
    let mut reversed = masked.clone();
    reversed.reverse();
    assert_eq!(cpuid_table_hash(&masked), cpuid_table_hash(&reversed));
}

#[test]
fn leaves_come_out_sorted() {
    let sorted = to_leaves(&[leaf(7, 0, 0, 0, 0, 0), leaf(1, 0, 0, 0, 0, 0), leaf(4, 2, 0, 0, 0, 0), leaf(4, 1, 0, 0, 0, 0)]);
    let keys: Vec<(u32, u32)> = sorted.iter().map(|e| (e.function, e.index)).collect();
    assert_eq!(keys, vec![(1, 0), (4, 1), (4, 2), (7, 0)]);
}

#[test]
fn to_leaves_keeps_equal_keys_in_their_order() {
    let x = leaf(7, 0, 2, 0, 0, 0);
    let y = leaf(1, 0, 9, 0, 0, 0);
    let z = leaf(7, 0, 1, 0, 0, 0);
    let w = leaf(7, 0, 3, 0, 0, 0);
    assert_eq!(to_leaves(&[x, y, z, w]), vec![y, x, z, w]);
    assert_eq!(to_leaves(&[w, z, y, x]), vec![y, w, z, x]);
    // Same entries, tied keys in another order: another table, another hash.
    assert_ne!(cpuid_table_hash(&[x, y, z, w]), cpuid_table_hash(&[w, z, y, x]));
    // Unique keys: the order KVM listed them in does not matter.
    let a = leaf(0, 0, 1, 0, 0, 0);
    let b = leaf(1, 0, 2, 0, 0, 0);
    let c = leaf(1, 1, 3, 0, 0, 0);
    assert_eq!(cpuid_table_hash(&[c, a, b]), cpuid_table_hash(&[a, b, c]));
}

use dh_vmm::xsave::{leaf_d_queries, leaf_d_support};
use dh_vmm::xsave::{
    canonicalize, host_component_layout, layout_from_leaf_d, xstate_bv, XsaveComponent, XsaveError, XSAVE_MIN_LEN,
};

fn area_with(bv: u64, fill: u8) -> Vec<u8> {
    let mut a = vec![fill; 1024];
    a[512..520].copy_from_slice(&bv.to_le_bytes());
    a[520..528].copy_from_slice(&0u64.to_le_bytes());
    a
}

#[test]
fn clear_bits_zero_their_areas_set_bits_survive() {
    let mut a = area_with(0b10, 0xAB);
    canonicalize(&mut a, &[]).unwrap();
    assert!(a[0..24].iter().all(|&b| b == 0));
    assert!(a[32..160].iter().all(|&b| b == 0));
    assert!(a[24..32].iter().all(|&b| b == 0xAB));
    assert!(a[160..416].iter().all(|&b| b == 0xAB));

    let mut a = area_with(0b01, 0xCD);
    canonicalize(&mut a, &[]).unwrap();
    assert!(a[0..24].iter().all(|&b| b == 0xCD));
    assert!(a[160..416].iter().all(|&b| b == 0));
}

#[test]
fn init_state_normalizes_to_clear_bit_regardless_of_encoding() {
    let mut a = area_with(0b00, 0x00);
    a[0..24].fill(0x99);
    a[32..160].fill(0x99);
    let mut b = area_with(0b01, 0x00);
    b[0..2].copy_from_slice(&[0x7F, 0x03]);
    a[24..32].copy_from_slice(&0x1F80_0000_FFFFu64.to_le_bytes()[..8]);
    b[24..32].copy_from_slice(&0x1F80_0000_FFFFu64.to_le_bytes()[..8]);

    canonicalize(&mut a, &[]).unwrap();
    canonicalize(&mut b, &[]).unwrap();
    assert_eq!(a, b, "both init encodings must canonicalize identically");
    assert_eq!(xstate_bv(&a).unwrap(), 0);

    let mut c = area_with(0b10, 0x00);
    let mut d = area_with(0b00, 0x00);
    d[160..416].fill(0x55);
    canonicalize(&mut c, &[]).unwrap();
    canonicalize(&mut d, &[]).unwrap();
    assert_eq!(c, d);

    let avx = XsaveComponent {
        bit: 2,
        offset: 576,
        size: 256,
    };
    let mut e = area_with(0b100, 0x00);
    let mut f = area_with(0b000, 0x00);
    canonicalize(&mut e, &[avx]).unwrap();
    canonicalize(&mut f, &[avx]).unwrap();
    assert_eq!(e, f);

    let mut g = area_with(0b01, 0x00);
    g[0..2].copy_from_slice(&[0x7E, 0x03]);
    canonicalize(&mut g, &[]).unwrap();
    assert_eq!(xstate_bv(&g).unwrap(), 1);
    assert_eq!(&g[0..2], &[0x7E, 0x03]);
}

#[test]
fn non_component_garbage_is_always_zeroed() {
    for bv in [0u64, 0b01, 0b10, 0b11] {
        let mut a = area_with(bv, 0xFF);
        canonicalize(&mut a, &[]).unwrap();
        assert!(
            a[416..512].iter().all(|&b| b == 0),
            "legacy reserved leaked (bv={bv:#b})"
        );
        assert!(
            a[528..576].iter().all(|&b| b == 0),
            "header reserved leaked (bv={bv:#b})"
        );
        assert!(a[576..].iter().all(|&b| b == 0), "tail leaked (bv={bv:#b})");
        assert_eq!(xstate_bv(&a).unwrap(), bv);
    }
}

#[test]
fn extended_components_follow_the_table() {
    let avx = XsaveComponent {
        bit: 2,
        offset: 576,
        size: 256,
    };
    let mut a = area_with(0b011, 0xEE);
    canonicalize(&mut a, &[avx]).unwrap();
    assert!(a[576..832].iter().all(|&b| b == 0));
    assert!(a[832..].iter().all(|&b| b == 0));

    let mut a = area_with(0b111, 0xEE);
    canonicalize(&mut a, &[avx]).unwrap();
    assert!(a[576..832].iter().all(|&b| b == 0xEE));
    assert!(a[832..].iter().all(|&b| b == 0));
}

#[test]
fn compacted_format_is_rejected() {
    let mut a = area_with(0, 0);
    a[520..528].copy_from_slice(&(1u64 << 63).to_le_bytes());
    assert_eq!(canonicalize(&mut a, &[]), Err(XsaveError::CompactedFormat));
}

#[test]
fn bounds_are_loud() {
    assert_eq!(
        canonicalize(&mut vec![0; 575], &[]),
        Err(XsaveError::TooShort { len: 575 })
    );
    let oob = XsaveComponent {
        bit: 9,
        offset: 1020,
        size: 8,
    };
    assert_eq!(
        canonicalize(&mut area_with(0, 0), &[oob]),
        Err(XsaveError::ComponentOutOfBounds { bit: 9 })
    );
    assert_eq!(
        canonicalize(&mut area_with(1 << 9, 0), &[oob]),
        Err(XsaveError::ComponentOutOfBounds { bit: 9 })
    );
}

#[test]
fn r7_uncanonicalized_garbage_changes_the_hash_canonical_does_not() {
    let mut a = area_with(0b10, 0x00);
    let mut b = area_with(0b10, 0x00);
    a[160..416].fill(0x42);
    b[160..416].fill(0x42);
    a[24..32].copy_from_slice(&[0x80, 0x1F, 0, 0, 0xFF, 0xFF, 0, 0]);
    b[24..32].copy_from_slice(&[0x80, 0x1F, 0, 0, 0xFF, 0xFF, 0, 0]);
    a[40..48].fill(0xDE);
    b[40..48].fill(0xAD);

    assert_ne!(blake3::hash(&a), blake3::hash(&b));

    canonicalize(&mut a, &[]).unwrap();
    canonicalize(&mut b, &[]).unwrap();
    assert_eq!(a, b);
    assert_eq!(blake3::hash(&a), blake3::hash(&b));
}

#[test]
fn canonicalization_is_idempotent() {
    let mut a = area_with(0b01, 0x77);
    canonicalize(&mut a, &[]).unwrap();
    let once = a.clone();
    canonicalize(&mut a, &[]).unwrap();
    assert_eq!(a, once);
}

#[test]
fn host_layout_is_sane() {
    for c in host_component_layout() {
        assert!(c.bit >= 2);
        assert!(c.offset >= XSAVE_MIN_LEN, "component {c:?}");
        assert!(c.size > 0);
    }
}

#[test]
fn short_areas_have_no_xstate_bv() {
    assert_eq!(xstate_bv(&[0u8; 100]), Err(XsaveError::TooShort { len: 100 }));
    assert_eq!(xstate_bv(&area_with(0b101, 0)), Ok(0b101));
}

#[test]
fn leaf_d_layout_lists_supported_nonempty_components_in_bit_order() {
    let mut sub = vec![(0u32, 0u32); 64];
    sub[0] = (999, 999); // bits 0 and 1 are the legacy area, never listed
    sub[2] = (256, 576);
    sub[5] = (64, 832);
    sub[6] = (0, 896); // supported but empty
    sub[9] = (8, 2688); // reported but not supported
    sub[63] = (4, 3000);
    let supported: u64 = 0b11 | 1 << 2 | 1 << 5 | 1 << 6 | 1 << 63;
    let got = layout_from_leaf_d(supported, &sub);
    assert_eq!(
        got,
        vec![
            XsaveComponent { bit: 2, offset: 576, size: 256 },
            XsaveComponent { bit: 5, offset: 832, size: 64 },
            XsaveComponent { bit: 63, offset: 3000, size: 4 },
        ]
    );
    assert!(layout_from_leaf_d(0b11, &sub).is_empty());
}

#[test]
fn leaf_d_queries_and_support_mask() {
    assert_eq!(leaf_d_support(0x2e7, 0x1), 0x1_0000_02e7);
    assert_eq!(leaf_d_queries(0x2e7), vec![2, 5, 6, 7, 9]);
    assert_eq!(leaf_d_queries(leaf_d_support(0x3, 0x8000_0000)), vec![63]);
    assert!(leaf_d_queries(0b11).is_empty());
}

#[test]
fn out_of_bounds_component_is_refused_whatever_its_bit() {
    let mut a = area_with(0b11, 0);
    let before = a.clone();
    let ext = [XsaveComponent { bit: 70, offset: 1020, size: 8 }];
    assert_eq!(canonicalize(&mut a, &ext), Err(XsaveError::ComponentOutOfBounds { bit: 70 }));
    assert_eq!(a, before);
}

use tensor_pcs::binary_field::{
    mul_bin_4b, BinaryField128b, BinaryField16b, BinaryField1b, BinaryField2b, BinaryField32b,
    BinaryField4b, BinaryField64b, BinaryField8b,
};

#[test]
fn level3_round_trip() {
    let x = BinaryField8b::new(0xA5);
    let y = BinaryField8b::new(0x3C);
    assert_eq!(x.multiply(y).val(), 0xfe);
    assert_eq!(y.multiply(x).val(), 0xfe);
    let inv = x.invert();
    assert!(inv.is_some);
    assert_eq!(inv.value.val(), 0xd8);
    assert_eq!(inv.value.multiply(x).val(), 1);
}

#[test]
fn invert_zero_has_no_value() {
    assert!(BinaryField1b::new(0).invert().into_option().is_none());
    assert!(BinaryField2b::new(0).invert().into_option().is_none());
    assert!(BinaryField4b::new(0).invert().into_option().is_none());
    assert!(BinaryField8b::new(0).invert().into_option().is_none());
    assert!(BinaryField16b::new(0).invert().into_option().is_none());
    assert!(BinaryField32b::new(0).invert().into_option().is_none());
    assert!(BinaryField64b::new(0).invert().into_option().is_none());
    assert!(BinaryField128b::new(0).invert().into_option().is_none());
}

#[test]
fn inverses_at_every_level() {
    assert_eq!(BinaryField1b::new(1).invert().into_option().unwrap().val(), 1);
    for v in 1u8..4 {
        let x = BinaryField2b::new(v);
        assert_eq!(x.invert().into_option().unwrap().multiply(x).val(), 1);
    }
    for v in 1u8..16 {
        let x = BinaryField4b::new(v);
        assert_eq!(x.invert().into_option().unwrap().multiply(x).val(), 1);
    }
    for v in 1u8..=255 {
        let x = BinaryField8b::new(v);
        assert_eq!(x.invert().into_option().unwrap().multiply(x).val(), 1);
    }
    let x = BinaryField16b::new(0x1234);
    assert_eq!(x.invert().into_option().unwrap().multiply(x).val(), 1);
    let x = BinaryField32b::new(0x9abc_def0);
    assert_eq!(x.invert().into_option().unwrap().multiply(x).val(), 1);
    let x = BinaryField64b::new(0x0123_4567_89ab_cdef);
    assert_eq!(x.invert().into_option().unwrap().multiply(x).val(), 1);
    let x = BinaryField128b::new(0x0123_4567_89ab_cdef_0123_4567_89ab_cdef);
    assert_eq!(x.invert().into_option().unwrap().multiply(x).val(), 1);
}

#[test]
fn products_at_upper_levels() {
    assert_eq!(BinaryField16b::new(0x1234).multiply(BinaryField16b::new(0xabcd)).val(), 0xcf0c);
    assert_eq!(
        BinaryField32b::new(0x1234_5678).multiply(BinaryField32b::new(0x9abc_def0)).val(),
        0x9f77_a270
    );
    assert_eq!(
        BinaryField64b::new(0x0123_4567_89ab_cdef)
            .multiply(BinaryField64b::new(0xfedc_ba98_7654_3210))
            .val(),
        0x6349_8a8f_2116_0000
    );
    assert_eq!(
        BinaryField128b::new(0x0123_4567_89ab_cdef_0123_4567_89ab_cdef)
            .multiply(BinaryField128b::new(0xfedc_ba98_7654_3210_fedc_ba98_7654_3210))
            .val(),
        0xc4fa_6349_6349_8a8f_0000_0000_0000_0000
    );
}

#[test]
fn small_table_products() {
    assert_eq!(mul_bin_4b(0x7, 0xb), 0x4);
    assert_eq!(mul_bin_4b(3, 2), 1);
    assert_eq!(BinaryField2b::new(3).multiply(BinaryField2b::new(2)).val(), 1);
    assert_eq!(BinaryField1b::new(1).multiply(BinaryField1b::new(1)).val(), 1);
    assert_eq!(BinaryField1b::new(1).multiply(BinaryField1b::new(0)).val(), 0);
}

#[test]
fn add_self_is_zero_and_units() {
    let x = BinaryField32b::new(0xdead_beef);
    assert_eq!(x.add(x).val(), 0);
    assert_eq!(x.multiply(BinaryField32b::one()).val(), 0xdead_beef);
    assert_eq!(x.multiply(BinaryField32b::zero()).val(), 0);
    let y = BinaryField8b::new(0x5a);
    assert_eq!(y.add(BinaryField8b::new(0xff)).val(), 0xa5);
}

#[test]
fn square_is_self_product() {
    for v in 0u8..=255 {
        let x = BinaryField8b::new(v);
        assert_eq!(x.square().val(), x.multiply(x).val());
    }
    let x = BinaryField64b::new(0x0123_4567_89ab_cdef);
    assert_eq!(x.square().val(), x.multiply(x).val());
    let x = BinaryField128b::new(0xfedc_ba98_7654_3210_0123_4567_89ab_cdef);
    assert_eq!(x.square().val(), x.multiply(x).val());
}

#[test]
fn multiply_alpha_is_generator_product() {
    for v in 0u8..4 {
        let x = BinaryField2b::new(v);
        assert_eq!(x.multiply_alpha().val(), x.multiply(BinaryField2b::new(0x02)).val());
    }
    for v in 0u8..16 {
        let x = BinaryField4b::new(v);
        assert_eq!(x.multiply_alpha().val(), x.multiply(BinaryField4b::new(0x04)).val());
    }
    for v in 0u8..=255 {
        let x = BinaryField8b::new(v);
        assert_eq!(x.multiply_alpha().val(), x.multiply(BinaryField8b::new(0x10)).val());
    }
    let x = BinaryField16b::new(0x1234);
    assert_eq!(x.multiply_alpha().val(), 0x5512);
    assert_eq!(x.multiply(BinaryField16b::new(0x100)).val(), 0x5512);
}

#[test]
fn embedding_agrees() {
    let x = BinaryField16b::new(0xA5);
    let y = BinaryField16b::new(0x3C);
    assert_eq!(x.multiply(y).val(), 0xfe);
    assert_eq!(x.square().val() as u8, BinaryField8b::new(0xA5).square().val());
    let h = BinaryField16b::new(0xabcd).into_halves();
    assert_eq!((h.0.val(), h.1.val()), (0xcd, 0xab));
    assert_eq!(BinaryField16b::from_halves(h.0, h.1).val(), 0xabcd);
}

#[test]
fn frobenius_small_levels() {
    for v in 0u8..=255 {
        let x = BinaryField8b::new(v);
        let mut p = x;
        for _ in 0..8 {
            p = p.square();
        }
        assert_eq!(p.val(), v);
    }
    let x = BinaryField16b::new(0x1234);
    let mut p = x;
    for _ in 0..16 {
        p = p.square();
    }
    assert_eq!(p.val(), 0x1234);
}

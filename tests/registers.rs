use ioreg::layout::{address, mask, shift, IndexError, RegWidth};
use ioreg::runtime::{decode, encode, extract_field, insert_field, DecodeError, FieldLayout, Register, Snapshot};

#[test]
fn mask_is_two_to_the_width_minus_one() {
    assert_eq!(mask(1), 1);
    assert_eq!(mask(4), 0xf);
    assert_eq!(mask(8), 0xff);
    assert_eq!(mask(16), 0xffff);
    assert_eq!(mask(32), 0xffff_ffff);
}

#[test]
fn shift_of_plain_and_indexed_fields() {
    assert_eq!(shift(5, 3, None), 5);
    assert_eq!(shift(5, 3, Some(0)), 5);
    assert_eq!(shift(1, 1, Some(3)), 4);
    assert_eq!(shift(0, 2, Some(15)), 30);
}

#[test]
fn round_trip_in_every_width_class() {
    for (width, bits) in [(RegWidth::Reg8, 8u32), (RegWidth::Reg16, 16), (RegWidth::Reg32, 32)] {
        let f = FieldLayout { low_bit: bits - 3, width: 3, count: 1 };
        let mut r = Register::new(width, 0);
        for v in 0..8u32 {
            r.set_field(f, v);
            assert_eq!(r.get().field(f), v);
        }
    }
}

#[test]
fn setting_enable_keeps_other_bits() {
    let enable = FieldLayout { low_bit: 0, width: 1, count: 1 };
    let mut r = Register::new(RegWidth::Reg32, 0xdead_bee0);
    r.set_field(enable, 1);
    let w = r.get().raw();
    assert_eq!(w & 1, 1);
    assert_eq!(w & !1, 0xdead_bee0);
}

#[test]
fn field_array_sets_exactly_one_bit() {
    let step_enable = FieldLayout { low_bit: 1, width: 1, count: 16 };
    let before: u32 = 0xa5a5_0021;
    let mut r = Register::new(RegWidth::Reg32, before);
    r.set_field_at(step_enable, 3, 1).unwrap();
    let after = r.get().raw();
    assert_eq!(after, before | (1 << 4));
    assert_eq!(after & 1, before & 1);
    assert_eq!(after >> 5, before >> 5);
}

#[test]
fn field_array_index_out_of_range_is_rejected() {
    let step_enable = FieldLayout { low_bit: 1, width: 1, count: 16 };
    let mut r = Register::new(RegWidth::Reg32, 7);
    assert_eq!(r.set_field_at(step_enable, 16, 1), Err(IndexError { index: 16, count: 16 }));
    assert_eq!(r.get().raw(), 7);
    assert_eq!(Snapshot { word: 7 }.field_at(step_enable, 16), Err(IndexError { index: 16, count: 16 }));
    assert_eq!(Snapshot { word: 0x10 }.field_at(step_enable, 3), Ok(1));
}

#[test]
fn enum_field_mode_round_trip() {
    let codes: [u32; 4] = [0, 1, 2, 3];
    let mode = FieldLayout { low_bit: 0, width: 2, count: 1 };
    let mut r = Register::new(RegWidth::Reg32, 0xffff_fff0);
    r.set_field(mode, encode(&codes, 0));
    assert_eq!(decode(&codes, r.get().field(mode)), Ok(0));
    r.set(3);
    assert_eq!(decode(&codes, r.get().field(mode)), Ok(3));
}

#[test]
fn enum_encode_then_decode_every_variant() {
    let codes: [u32; 3] = [0, 1, 2];
    for i in 0..codes.len() {
        assert_eq!(decode(&codes, encode(&codes, i)), Ok(i));
    }
    assert_eq!(decode(&codes, 3), Err(DecodeError { code: 3 }));
}

#[test]
fn group_element_address() {
    let b: usize = 0x44e0_d000;
    assert_eq!(address(b, 0x64, 8, 5, 16), Ok(b + 0x64 + 5 * 8));
    assert_eq!(address(b, 0x64, 8, 0, 16), Ok(b + 0x64));
}

#[test]
fn group_index_out_of_range() {
    assert_eq!(address(0x1000, 0x64, 8, 16, 16), Err(IndexError { index: 16, count: 16 }));
}

#[test]
fn insert_and_extract_words() {
    assert_eq!(insert_field(0xffff_ffff, 4, 4, 0), 0xffff_ff0f);
    assert_eq!(insert_field(0, 4, 4, 0x1f), 0xf0);
    assert_eq!(extract_field(0x1234_5678, 8, 8), 0x56);
    assert_eq!(extract_field(0x8000_0000, 31, 1), 1);
}

#[test]
fn primitive_names() {
    assert_eq!(ioreg::layout::primitive_type_name(RegWidth::Reg8), "u8");
    assert_eq!(ioreg::layout::primitive_type_name(RegWidth::Reg16), "u16");
    assert_eq!(ioreg::layout::primitive_type_name(RegWidth::Reg32), "u32");
    assert_eq!(RegWidth::from_bits(12), None);
    assert_eq!(RegWidth::from_bits(16), Some(RegWidth::Reg16));
}

#[test]
fn binding_names() {
    let path = vec![b"ADC_TSC".to_vec(), b"step".to_vec(), b"ctrl".to_vec()];
    assert_eq!(ioreg::layout::path_ident(&path), b"ADC_TSC_step_ctrl".to_vec());
    assert_eq!(ioreg::layout::setter_name(&path), b"ADC_TSC_step_ctrl_Update".to_vec());
    assert_eq!(ioreg::layout::getter_name(&path), b"ADC_TSC_step_ctrl_Get".to_vec());
    assert_eq!(ioreg::layout::path_ident(&vec![]), Vec::<u8>::new());
}

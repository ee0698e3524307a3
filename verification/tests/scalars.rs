use wordle_core::encoding::LetterState;
use wordle_core::scalars::{RangeError, Width, U16, U32, U54, U8};

const TWO_TO_53: u64 = 1 << 53;
const TWO_TO_54: u64 = 1 << 54;

#[test]
fn range_error_text_names_the_width() {
    assert_eq!(
        RangeError { width: Width::W8 }.message(),
        "expected an unsigned 8-bit integer"
    );
    assert_eq!(
        RangeError { width: Width::W16 }.message(),
        "expected an unsigned 16-bit integer"
    );
    assert_eq!(
        RangeError { width: Width::W32 }.message(),
        "expected an unsigned 32-bit integer"
    );
    assert_eq!(
        RangeError { width: Width::W54 }.message(),
        "expected an unsigned 54-bit integer"
    );
}

#[test]
fn u8_construction_checks_the_range() {
    assert_eq!(U8::from_i32(0).unwrap().get(), 0);
    assert_eq!(U8::from_i32(255).unwrap().get(), 255);
    assert_eq!(U8::from_i32(256), Err(RangeError { width: Width::W8 }));
    assert_eq!(U8::from_i32(-1), Err(RangeError { width: Width::W8 }));
    assert_eq!(U8::new(7).get(), 7);
}

#[test]
fn u16_construction_checks_the_range() {
    assert_eq!(U16::from_i32(0xFFFF).unwrap().get(), 0xFFFF);
    assert_eq!(U16::from_i32(0x10000), Err(RangeError { width: Width::W16 }));
    assert_eq!(U16::from_i32(-1), Err(RangeError { width: Width::W16 }));
    assert_eq!(U16::from_u64(0xFFFF).unwrap().get(), 0xFFFF);
    assert_eq!(U16::from_u64(0x10000), Err(RangeError { width: Width::W16 }));
    assert_eq!(U16::from_u8(200).get(), 200);
    assert_eq!(U16::new(513).to_u64(), 513);
}

#[test]
fn u32_construction_checks_the_range() {
    assert_eq!(U32::from_i32(i32::MAX).unwrap().get(), i32::MAX as u32);
    assert_eq!(U32::from_i32(-1), Err(RangeError { width: Width::W32 }));
    assert_eq!(U32::new(u32::MAX).get(), u32::MAX);
}

#[test]
fn u54_construction_rejects_more_than_54_bits() {
    assert_eq!(U54::new(0).unwrap().get(), 0);
    assert_eq!(U54::new(TWO_TO_54 - 1).unwrap().get(), TWO_TO_54 - 1);
    assert_eq!(U54::new(TWO_TO_54), Err(RangeError { width: Width::W54 }));
    assert_eq!(U54::new(u64::MAX), Err(RangeError { width: Width::W54 }));
    assert_eq!(U54::from_i32(5).unwrap().get(), 5);
    assert_eq!(U54::from_i32(-5), Err(RangeError { width: Width::W54 }));
    assert_eq!(U54::zero().get(), 0);
}

#[test]
fn u54_set_keeps_the_value_on_error() {
    let mut n = U54::new(12).unwrap();
    assert_eq!(n.set(TWO_TO_54), Err(RangeError { width: Width::W54 }));
    assert_eq!(n.get(), 12);
    assert_eq!(n.set(TWO_TO_54 - 1), Ok(()));
    assert_eq!(n.get(), TWO_TO_54 - 1);
}

#[test]
fn u54_bit_or() {
    let mut n = U54::new(0b0101).unwrap();
    n.bitor_assign(0b0011);
    assert_eq!(n.get(), 0b0111);
    assert_eq!(n.bitor(0b1000).get(), 0b1111);
}

#[test]
fn checked_arithmetic_matches_plain_arithmetic_in_range() {
    assert_eq!(U8::new(250).checked_add(5).unwrap().get(), 255);
    assert_eq!(U8::new(5).checked_sub(5).unwrap().get(), 0);
    assert_eq!(U8::new(5).checked_add(-5).unwrap().get(), 0);
    assert_eq!(U8::new(5).checked_sub(-250).unwrap().get(), 255);
    assert_eq!(U16::new(65000).checked_add(535).unwrap().get(), 65535);
    assert_eq!(U16::new(1).checked_sub(1).unwrap().get(), 0);
    assert_eq!(
        U32::new(u32::MAX - 1).checked_add(1).unwrap().get(),
        u32::MAX
    );
    assert_eq!(
        U32::new(i32::MAX as u32).checked_add(i32::MAX).unwrap().get(),
        u32::MAX - 1
    );
    assert_eq!(U32::new(7).checked_sub(7).unwrap().get(), 0);
    assert_eq!(
        U54::new(TWO_TO_54 - 2).unwrap().checked_add(1).unwrap().get(),
        TWO_TO_54 - 1
    );
    assert_eq!(U54::new(9).unwrap().checked_sub(4).unwrap().get(), 5);
}

#[test]
fn checked_arithmetic_fails_across_the_bounds() {
    assert_eq!(U8::new(255).checked_add(1), None);
    assert_eq!(U8::new(0).checked_sub(1), None);
    assert_eq!(U8::new(0).checked_add(-1), None);
    assert_eq!(U8::new(255).checked_sub(-1), None);
    assert_eq!(U16::new(u16::MAX).checked_add(1), None);
    assert_eq!(U16::new(0).checked_sub(1), None);
    assert_eq!(U32::new(u32::MAX).checked_add(1), None);
    assert_eq!(U32::new(0).checked_sub(1), None);
    assert_eq!(U32::new(0).checked_add(-1), None);
    assert_eq!(U54::new(TWO_TO_54 - 1).unwrap().checked_add(1), None);
    assert_eq!(U54::new(0).unwrap().checked_sub(1), None);
}

#[test]
fn assigning_arithmetic_in_range() {
    let mut a = U8::new(10);
    a.add_assign(5);
    a.sub_assign(3);
    a.add_assign_u8(8);
    a.sub_assign_u8(20);
    assert_eq!(a.get(), 0);

    let mut b = U16::new(65534);
    b.add_assign(1);
    assert_eq!(b.get(), 65535);
    b.sub_assign(65535);
    b.add_assign_u16(9);
    b.sub_assign_u16(4);
    assert_eq!(b.get(), 5);

    let mut c = U32::new(i32::MAX as u32);
    c.add_assign(1);
    assert_eq!(c.get(), 1 << 31);
    c.sub_assign(1);
    c.add_assign_u32(1 << 31);
    assert_eq!(c.get(), u32::MAX);
    c.sub_assign_u32(u32::MAX);
    assert_eq!(c.get(), 0);

    let mut d = U54::new(1).unwrap();
    d.add_assign(41);
    d.sub_assign(2);
    d.add_assign_u64(TWO_TO_54 - 41);
    assert_eq!(d.get(), TWO_TO_54 - 1);
    d.sub_assign_u64(TWO_TO_54 - 1);
    assert_eq!(d.get(), 0);
}

#[test]
fn wire_integers_are_range_checked() {
    assert_eq!(U8::from_input(Some(255)).unwrap().get(), 255);
    assert_eq!(U8::from_input(Some(256)), Err(RangeError { width: Width::W8 }));
    assert_eq!(U8::from_input(Some(-1)), Err(RangeError { width: Width::W8 }));
    assert_eq!(U8::from_input(None), Err(RangeError { width: Width::W8 }));
    assert_eq!(U8::new(200).to_output(), 200);
    assert_eq!(U16::from_input(Some(0xFFFF)).unwrap().get(), 0xFFFF);
    assert_eq!(
        U16::from_input(Some(0x10000)),
        Err(RangeError { width: Width::W16 })
    );
    assert_eq!(U16::from_input(None), Err(RangeError { width: Width::W16 }));
    assert_eq!(U16::new(0xFFFF).to_output(), 0xFFFF);
}

#[test]
fn wire_doubles_are_read_as_whole_numbers() {
    let read54 = |x: f64| U54::from_input(Some(x.to_bits())).map(|n| n.get());
    let read32 = |x: f64| U32::from_input(Some(x.to_bits())).map(|n| n.get());
    let bad54 = Err(RangeError { width: Width::W54 });
    let bad32 = Err(RangeError { width: Width::W32 });

    assert_eq!(read54(0.0), Ok(0));
    assert_eq!(read54(-0.0), Ok(0));
    assert_eq!(read54(1.0), Ok(1));
    assert_eq!(read54(2.0), Ok(2));
    assert_eq!(read54(3.0), Ok(3));
    assert_eq!(read54(1234567.0), Ok(1234567));
    assert_eq!(read54(4503599627370495.0), Ok((1 << 52) - 1));
    assert_eq!(read54(9007199254740991.0), Ok(TWO_TO_53 - 1));
    assert_eq!(read54(9007199254740992.0), Ok(TWO_TO_53));
    assert_eq!(read54(9007199254740994.0), bad54);
    assert_eq!(read54(18014398509481984.0), bad54);
    assert_eq!(read54(0.5), bad54);
    assert_eq!(read54(1.5), bad54);
    assert_eq!(read54(1234567.25), bad54);
    assert_eq!(read54(-1.0), bad54);
    assert_eq!(read54(f64::MIN_POSITIVE), bad54);
    assert_eq!(read54(5e-324), bad54);
    assert_eq!(read54(f64::INFINITY), bad54);
    assert_eq!(read54(f64::NEG_INFINITY), bad54);
    assert_eq!(read54(f64::NAN), bad54);
    assert_eq!(read54(f64::MAX), bad54);
    assert_eq!(U54::from_input(None).map(|n| n.get()), bad54);

    assert_eq!(read32(0.0), Ok(0));
    assert_eq!(read32(4294967295.0), Ok(u32::MAX));
    assert_eq!(read32(4294967296.0), bad32);
    assert_eq!(read32(4294967294.5), bad32);
    assert_eq!(read32(-3.0), bad32);
    assert_eq!(read32(f64::NAN), bad32);
    assert_eq!(U32::from_input(None).map(|n| n.get()), bad32);
}

#[test]
fn wire_doubles_are_written_as_the_nearest_double() {
    let values: [u64; 14] = [
        0,
        1,
        2,
        3,
        255,
        1234567,
        (1 << 32) - 1,
        (1 << 52) - 1,
        1 << 52,
        TWO_TO_53 - 1,
        TWO_TO_53,
        TWO_TO_53 + 1,
        TWO_TO_53 + 3,
        TWO_TO_54 - 1,
    ];
    for value in values {
        let written = U54::new(value).unwrap().to_output();
        assert_eq!(written, (value as f64).to_bits());
    }
    for value in [0u32, 1, 77, u32::MAX] {
        assert_eq!(U32::new(value).to_output(), (value as f64).to_bits());
    }
}

#[test]
fn pool_values_survive_the_wire() {
    let values: [u64; 8] = [
        0,
        1,
        0b10_00_00_00_10,
        0x000F_FFFF_FFFF_FFFF,
        0x000A_AAAA_AAAA_AAAA,
        0x0005_5555_5555_5555,
        TWO_TO_53 - 1,
        TWO_TO_53,
    ];
    for value in values {
        let pool = U54::new(value).unwrap();
        let scalar = f64::from_bits(pool.to_output());
        assert_eq!(scalar, value as f64);
        assert_eq!(U54::from_input(Some(scalar.to_bits())), Ok(pool));
    }
    let mut value: u64 = 1;
    while value < (1 << 52) {
        let pool = U54::new(value - 1).unwrap();
        assert_eq!(U54::from_input(Some(pool.to_output())), Ok(pool));
        value = value * 3 + 1;
    }
}

#[test]
fn values_above_two_to_the_53_do_not_survive_the_wire() {
    let pool = U54::new(TWO_TO_53 + 2).unwrap();
    assert_eq!(
        U54::from_input(Some(pool.to_output())),
        Err(RangeError { width: Width::W54 })
    );
}

#[test]
fn codes_pack_lowest_first() {
    assert_eq!(U16::from_codes(vec![]).get(), 0);
    assert_eq!(U16::from_codes(vec![1]).get(), 1);
    assert_eq!(U16::from_codes(vec![1, 2, 3]).get(), 0b11_10_01);
    assert_eq!(U16::from_codes(vec![3; 8]).get(), 0xFFFF);
    assert_eq!(U16::from_codes(vec![0, 0, 2]).get(), 0b10_00_00);
    assert_eq!(
        U16::from_states(vec![
            LetterState::YELLOW,
            LetterState::BLACK,
            LetterState::GREEN
        ])
        .get(),
        0b11_10_01
    );
}

#[test]
fn codes_unpack_as_far_as_the_integer_reaches() {
    assert_eq!(U16::new(0).to_codes(), Vec::<u8>::new());
    assert_eq!(U16::new(0b11_10_01).to_codes(), vec![1, 2, 3]);
    assert_eq!(U16::new(0b10_00_00).to_codes(), vec![0, 0, 2]);
    assert_eq!(U16::new(0xFFFF).to_codes(), vec![3; 8]);
    assert_eq!(
        U16::new(0b11_10_01).to_states(),
        vec![LetterState::YELLOW, LetterState::BLACK, LetterState::GREEN]
    );
    assert_eq!(U16::new(0b01_00).to_states(), vec![LetterState::WHITE, LetterState::YELLOW]);
}

#[test]
fn packing_and_unpacking_undo_each_other() {
    for value in [0u16, 1, 2, 3, 4, 27, 0b11_10_01, 0x1234, 0xFFFF] {
        assert_eq!(U16::from_codes(U16::new(value).to_codes()).get(), value);
    }
    let codes = vec![2, 0, 3, 1];
    assert_eq!(U16::from_codes(codes.clone()).to_codes(), codes);
}

#[test]
fn next_takes_the_lowest_code_off() {
    let mut packed = U16::new(0b11_00_01);
    assert_eq!(packed.next(), Some(1));
    assert_eq!(packed.get(), 0b11_00);
    assert_eq!(packed.next(), Some(0));
    assert_eq!(packed.next(), Some(3));
    assert_eq!(packed.next(), None);
    assert_eq!(packed.next(), None);
    assert_eq!(packed.get(), 0);
}

#[test]
fn construction_from_doubles_takes_whole_numbers_in_range() {
    let make54 = |x: f64| U54::from_double(x.to_bits()).map(|n| n.get());
    let make32 = |x: f64| U32::from_double(x.to_bits()).map(|n| n.get());
    let bad54 = Err(RangeError { width: Width::W54 });
    let bad32 = Err(RangeError { width: Width::W32 });

    assert_eq!(make54(0.0), Ok(0));
    assert_eq!(make54(7.0), Ok(7));
    assert_eq!(make54(9007199254740992.0), Ok(TWO_TO_53));
    assert_eq!(make54(9007199254740994.0), Ok(TWO_TO_53 + 2));
    assert_eq!(make54(18014398509481982.0), Ok(TWO_TO_54 - 2));
    assert_eq!(make54(18014398509481984.0), bad54);
    assert_eq!(make54(7.5), bad54);
    assert_eq!(make54(-7.0), bad54);
    assert_eq!(make54(f64::NAN), bad54);
    assert_eq!(make54(f64::INFINITY), bad54);

    assert_eq!(make32(4294967295.0), Ok(u32::MAX));
    assert_eq!(make32(4294967296.0), bad32);
    assert_eq!(make32(0.25), bad32);
    assert_eq!(make32(-0.0), Ok(0));
}

#[test]
fn equal_values_are_equal_integers() {
    assert_eq!(U8::new(3), U8::from_i32(3).unwrap());
    assert_eq!(U16::new(3), U16::from_u8(3));
    assert_eq!(U32::new(3), U32::from_i32(3).unwrap());
    assert_eq!(U54::new(3).unwrap(), U54::from_i32(3).unwrap());
    assert_ne!(U54::new(3).unwrap(), U54::zero());
}

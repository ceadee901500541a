use dynasm_loongarch::compiler::DynamicField;
use dynasm_loongarch::dynamic::{dynamic_range_check_signed, dynamic_range_check_unsigned};

#[test]
fn unsigned_checks() {
    // plain range
    assert!(!dynamic_range_check_unsigned(0, 4095, 0, 4095));
    assert!(dynamic_range_check_unsigned(0, 4095, 0, 4096));
    // biased: 1 ..= 32 stored as 0 ..= 31
    assert!(!dynamic_range_check_unsigned(1, 31, 0, 1));
    assert!(!dynamic_range_check_unsigned(1, 31, 0, 32));
    assert!(dynamic_range_check_unsigned(1, 31, 0, 0));
    assert!(dynamic_range_check_unsigned(1, 31, 0, 33));
    // scaled: multiples of 4 up to 4 * 255
    assert!(!dynamic_range_check_unsigned(0, 255, 2, 1020));
    assert!(dynamic_range_check_unsigned(0, 255, 2, 1022));
    assert!(dynamic_range_check_unsigned(0, 255, 2, 1024));
    assert!(!dynamic_range_check_unsigned(1, 255, 2, 4));
    assert!(dynamic_range_check_unsigned(1, 255, 2, 0));
}

#[test]
fn signed_checks() {
    // 12-bit signed field
    assert!(!dynamic_range_check_signed(-2048, 4095, 0, -2048));
    assert!(!dynamic_range_check_signed(-2048, 4095, 0, 2047));
    assert!(dynamic_range_check_signed(-2048, 4095, 0, 2048));
    assert!(dynamic_range_check_signed(-2048, 4095, 0, -2049));
    assert!(dynamic_range_check_signed(-2048, 4095, 0, i32::MAX));
    assert!(dynamic_range_check_signed(-2048, 4095, 0, i32::MIN));
    // 16-bit signed field in 4-byte units
    assert!(!dynamic_range_check_signed(-32768, 65535, 2, -131072));
    assert!(!dynamic_range_check_signed(-32768, 65535, 2, 131068));
    assert!(dynamic_range_check_signed(-32768, 65535, 2, 131072));
    assert!(dynamic_range_check_signed(-32768, 65535, 2, 6));
    // a field whose smallest value is 0
    assert!(!dynamic_range_check_signed(0, 15, 0, 15));
    assert!(dynamic_range_check_signed(0, 15, 0, -1));
}

#[test]
fn register_fields() {
    let r = DynamicField::Register { arg: 0, nonzero: false };
    assert_eq!(r.run_time_value(0, 0), Some(0));
    assert_eq!(r.run_time_value(31, 0), Some(31));
    assert_eq!(r.run_time_value(33, 0), Some(1));
    let nz = DynamicField::Register { arg: 0, nonzero: true };
    assert_eq!(nz.run_time_value(0, 0), None);
    assert_eq!(nz.run_time_value(7, 0), Some(7));
}

#[test]
fn immediate_fields() {
    let u = DynamicField::Unsigned { arg: 2, mask: 4095 };
    assert_eq!(u.run_time_value(4095, 0), Some(4095));
    assert_eq!(u.run_time_value(4096, 0), None);
    let s = DynamicField::Signed { arg: 2, min: -2048, range: 4095, scale: 0, shift: 0, mask: 4095 };
    assert_eq!(s.run_time_value(-1, 0), Some(0xFFF));
    assert_eq!(s.run_time_value(2047, 0), Some(2047));
    assert_eq!(s.run_time_value(2048, 0), None);
    let r = DynamicField::Bits { arg: 1, bias: 0x800, shift: 12, mask: 0xF_FFFF };
    assert_eq!(r.run_time_value(0x1234_5000, 0), Some(0x12345));
    assert_eq!(r.run_time_value(0x1234_57FF, 0), Some(0x12345));
    assert_eq!(r.run_time_value(0x1234_5800, 0), Some(0x12346));
    assert_eq!(r.run_time_value(-0x1000, 0), Some(0xF_FFFF));
}

#[test]
fn run_time_offsets_are_not_rescaled() {
    // The fields of a run-time branch offset take the raw immediate: the check asks for a
    // multiple of 4, but the field bits are not divided by 4.
    let high = DynamicField::Signed { arg: 0, min: -(1 << 25), range: (1 << 26) - 1, scale: 2, shift: 16, mask: 0x3FF };
    let low = DynamicField::Signed { arg: 0, min: -(1 << 25), range: (1 << 26) - 1, scale: 2, shift: 0, mask: 0xFFFF };
    assert_eq!(low.run_time_value(8, 0), Some(8));
    assert_eq!(high.run_time_value(8, 0), Some(0));
    assert_eq!(low.run_time_value(6, 0), None);
}

#[test]
fn related_immediate_fields() {
    // a size added to a start: the field holds start + size - 1
    let sum = DynamicField::Sum { arg: 3, prev: 2, mask: 31 };
    assert_eq!(sum.run_time_value(4, 8), Some(11));
    assert_eq!(sum.run_time_value(24, 8), Some(31));
    assert_eq!(sum.run_time_value(25, 8), None);
    assert_eq!(sum.run_time_value(0, 8), None);
    assert_eq!(sum.run_time_value(1, 32), None);
    // an end bounded by a start
    let at_most = DynamicField::AtMost { arg: 3, prev: 2, mask: 31 };
    assert_eq!(at_most.run_time_value(7, 9), Some(7));
    assert_eq!(at_most.run_time_value(9, 9), Some(9));
    assert_eq!(at_most.run_time_value(10, 9), None);
    // a count stored less one
    let sub_one = DynamicField::SubOne { arg: 1, mask: 7 };
    assert_eq!(sub_one.run_time_value(1, 0), Some(0));
    assert_eq!(sub_one.run_time_value(8, 0), Some(7));
    assert_eq!(sub_one.run_time_value(9, 0), None);
    assert_eq!(sub_one.run_time_value(0, 0), None);
}

#[test]
fn bit_fields() {
    let low = DynamicField::Bits { arg: 0, bias: 0, shift: 0, mask: 0xFFF };
    assert_eq!(low.run_time_value(0x1234_5ABC, 0), Some(0xABC));
    assert_eq!(low.run_time_value(-1, 0), Some(0xFFF));
    let call_high = DynamicField::Bits { arg: 0, bias: 0x20000, shift: 18, mask: 0xF_FFFF };
    assert_eq!(call_high.run_time_value(0x4_0000, 0), Some(1));
    assert_eq!(call_high.run_time_value(0x5_FFFF, 0), Some(1));
    assert_eq!(call_high.run_time_value(0x6_0000, 0), Some(2));
    let high = DynamicField::High { arg: 0, shift: 32, mask: 0xF_FFFF };
    assert_eq!(high.run_time_value(0x0012_3456_789A_BCDE, 0), Some(0x23456));
    let top = DynamicField::High { arg: 0, shift: 52, mask: 0xFFF };
    assert_eq!(top.run_time_value(-1, 0), Some(0xFFF));
    assert_eq!(top.run_time_value(0x0012_3456_789A_BCDE, 0), Some(0x001));
}

#[test]
fn wide_fields() {
    // a 32-bit signed immediate whose high part is rounded
    let plain = DynamicField::Wide { arg: 0, shift: 0, mask: 0xFFF, round: false, lowest: -0x8000_0000, extent: 0xFFFF_FFFF };
    let rounded = DynamicField::Wide { arg: 0, shift: 12, mask: 0xF_FFFF, round: true, lowest: -0x8000_0000, extent: 0xFFFF_FFFF };
    assert_eq!(plain.run_time_value(0x1234_5FFF, 0), Some(0xFFF));
    assert_eq!(rounded.run_time_value(0x1234_57FF, 0), Some(0x12345));
    assert_eq!(rounded.run_time_value(0x1234_5800, 0), Some(0x12346));
    assert_eq!(rounded.run_time_value(-1, 0), Some(0));
    assert_eq!(plain.run_time_value(0x8000_0000, 0), None);
    assert_eq!(plain.run_time_value(-0x8000_0001, 0), None);
    assert_eq!(plain.run_time_value(-0x8000_0000, 0), Some(0));
    // the full 64-bit range takes every value
    let full = DynamicField::Wide { arg: 0, shift: 63, mask: 1, round: false, lowest: i64::MIN, extent: u64::MAX };
    assert_eq!(full.run_time_value(i64::MIN, 0), Some(1));
    assert_eq!(full.run_time_value(i64::MAX, 0), Some(0));
}

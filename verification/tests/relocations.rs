use byteorder::{ByteOrder, LittleEndian};
use dynasm_loongarch::loongarch::{
    immediate_out_of_range_message, invalid_register_message, LoongArchRelocation,
};
use dynasm_loongarch::relocation::{fits_signed_bitfield, RelocationKind, RelocationSize};

const ENCODING_TABLE: &'static [(u8, fn() -> LoongArchRelocation)] = &[
    (0, || LoongArchRelocation::B16),
    (1, || LoongArchRelocation::B21),
    (2, || LoongArchRelocation::B26),
    (4, || LoongArchRelocation::ABS_HI20),
    (5, || LoongArchRelocation::SI14),
    (6, || LoongArchRelocation::B16),
    (7, || LoongArchRelocation::SI12),
    (8, || LoongArchRelocation::PCALA_LO12),
    (13, || LoongArchRelocation::PCALA_HI20),
    (14, || LoongArchRelocation::PCADD_SHIFT2),
    (15, || LoongArchRelocation::PCADD_SHIFT12),
    (16, || LoongArchRelocation::PCADD_SHIFT18),
    (17, || LoongArchRelocation::SPLIT_PCALA),
    (18, || LoongArchRelocation::SPLIT_CALL30),
    (19, || LoongArchRelocation::SPLIT_CALL36),
];

#[test]
fn test_from_encoding_consistency() {
    for &(disc, ref ctor) in ENCODING_TABLE {
        let expected = ctor();
        let actual = LoongArchRelocation::from_encoding((disc,));
        assert_eq!(
            std::mem::discriminant(&expected),
            std::mem::discriminant(&actual),
            "from_encoding({}): mismatch — expected {:?}, got {:?}",
            disc,
            expected,
            actual,
        );
    }
}

#[test]
fn test_abs_hi20_raw_si20_no_shift() {
    let reloc = LoongArchRelocation::ABS_HI20;
    let value: isize = 0x12345;
    let encoded = reloc.encode(value).unwrap();
    let si20 = (encoded >> 5) & 0xF_FFFF;
    assert_eq!(si20, 0x12345, "ABS_HI20 should store raw si20 (no shift)");
    let mut buf = [0u8; 4];
    reloc.write_value(&mut buf, value).unwrap();
    let recovered = reloc.read_value(&buf);
    assert_eq!(recovered, value, "ABS_HI20 roundtrip should recover raw si20");
}

#[test]
fn test_pcadd_shift2_encode_and_roundtrip() {
    let reloc = LoongArchRelocation::PCADD_SHIFT2;
    let value: isize = 0x3FFFC;
    let encoded = reloc.encode(value).unwrap();
    let si20 = (encoded >> 5) & 0xF_FFFF;
    assert_eq!(si20, 0xFFFF, "PCADD_SHIFT2 si20 should be value>>2");
    let mut buf = [0u8; 4];
    reloc.write_value(&mut buf, value).unwrap();
    let recovered = reloc.read_value(&buf);
    assert_eq!(recovered, value, "PCADD_SHIFT2 roundtrip should recover the offset");
}

#[test]
fn test_pcadd_shift12_encode_with_compensation() {
    let reloc = LoongArchRelocation::PCADD_SHIFT12;
    let value: isize = 0x12345_000;
    let encoded = reloc.encode(value).unwrap();
    let si20 = (encoded >> 5) & 0xF_FFFF;
    let expected_si20: u32 = (((value as i64 + 0x800) >> 12) as u32) & 0xF_FFFF;
    assert_eq!(
        si20, expected_si20,
        "PCADD_SHIFT12 si20 should be (value+0x800)>>12 = 0x{:X}",
        expected_si20
    );
}

#[test]
fn test_pcadd_shift12_no_carry_when_lo12_positive() {
    let reloc = LoongArchRelocation::PCADD_SHIFT12;
    let value: isize = 0x1000;
    let encoded = reloc.encode(value).unwrap();
    let si20 = (encoded >> 5) & 0xF_FFFF;
    assert_eq!(si20, 1, "PCADD_SHIFT12: value=0x1000, si20=1");
}

#[test]
fn test_pcadd_shift18_encode_with_compensation() {
    let reloc = LoongArchRelocation::PCADD_SHIFT18;
    let value: isize = 0x40000;
    let encoded = reloc.encode(value).unwrap();
    let si20 = (encoded >> 5) & 0xF_FFFF;
    let expected_si20: u32 = (((value as i64 + 0x20000) >> 18) as u32) & 0xF_FFFF;
    assert_eq!(
        si20, expected_si20,
        "PCADD_SHIFT18 si20 should be (value+0x20000)>>18 = 0x{:X}",
        expected_si20
    );
}

#[test]
fn test_pcala_hi20_encode_with_compensation() {
    let reloc = LoongArchRelocation::PCALA_HI20;
    let value: isize = 0x12345_000;
    let encoded = reloc.encode(value).unwrap();
    let si20 = (encoded >> 5) & 0xF_FFFF;
    let expected_si20: u32 = (((value as i64 + 0x800) >> 12) as u32) & 0xF_FFFF;
    assert_eq!(si20, expected_si20, "PCALA_HI20 si20 should include +0x800 compensation");
}

#[test]
fn test_pcala_hi20_roundtrip() {
    let reloc = LoongArchRelocation::PCALA_HI20;
    let value: isize = 0x1000;
    let mut buf = [0u8; 4];
    reloc.write_value(&mut buf, value).unwrap();
    let recovered = reloc.read_value(&buf);
    assert_eq!(recovered, value, "PCALA_HI20 roundtrip should recover offset (with compensation)");
}

fn pcala_pair() -> [u8; 8] {
    let mut buf = [0u8; 8];
    LittleEndian::write_u32(&mut buf[..4], 0x1A00_0000);
    LittleEndian::write_u32(&mut buf[4..], 0x02C0_0000);
    buf
}

fn call_pair(first: u32) -> [u8; 8] {
    let mut buf = [0u8; 8];
    LittleEndian::write_u32(&mut buf[..4], first);
    LittleEndian::write_u32(&mut buf[4..], 0x4C00_0021);
    buf
}

#[test]
fn test_split_pcala_positive_roundtrip() {
    let reloc = LoongArchRelocation::SPLIT_PCALA;
    let value: isize = 0x12340;
    let mut buf = pcala_pair();
    reloc.write_value(&mut buf, value).unwrap();
    let recovered = reloc.read_value(&buf);
    assert_eq!(recovered, value, "SPLIT_PCALA roundtrip should recover positive offset 0x{:X}", value);
}

#[test]
fn test_split_pcala_negative_roundtrip() {
    let reloc = LoongArchRelocation::SPLIT_PCALA;
    let value: isize = -4;
    let mut buf = pcala_pair();
    reloc.write_value(&mut buf, value).unwrap();
    let recovered = reloc.read_value(&buf);
    assert_eq!(recovered, value, "SPLIT_PCALA roundtrip should recover negative offset {}", value);
}

#[test]
fn test_split_pcala_large_roundtrip() {
    let reloc = LoongArchRelocation::SPLIT_PCALA;
    let value: isize = 0x7FFF_F7FC;
    let mut buf = pcala_pair();
    reloc.write_value(&mut buf, value).unwrap();
    let recovered = reloc.read_value(&buf);
    assert_eq!(
        recovered, value,
        "SPLIT_PCALA roundtrip should recover large positive offset 0x{:X}",
        value
    );
}

#[test]
fn test_split_pcala_alignment_check() {
    let reloc = LoongArchRelocation::SPLIT_PCALA;
    let mut buf = pcala_pair();
    let result = reloc.write_value(&mut buf, 3);
    assert!(result.is_err(), "SPLIT_PCALA should reject non-4-byte-aligned value");
}

#[test]
fn test_split_call30_positive_roundtrip() {
    let reloc = LoongArchRelocation::SPLIT_CALL30;
    let mut buf = call_pair(0x1C00_0001);
    let value: isize = 0x12340;
    reloc.write_value(&mut buf, value).unwrap();
    let read_back = reloc.read_value(&buf);
    assert_eq!(read_back, value);
}

#[test]
fn test_split_call30_negative_roundtrip() {
    let reloc = LoongArchRelocation::SPLIT_CALL30;
    let mut buf = call_pair(0x1C00_0001);
    let value: isize = -0x10000;
    reloc.write_value(&mut buf, value).unwrap();
    let read_back = reloc.read_value(&buf);
    assert_eq!(read_back, value);
}

#[test]
fn test_split_call30_alignment_check() {
    let reloc = LoongArchRelocation::SPLIT_CALL30;
    let mut buf = call_pair(0x1C00_0001);
    let result = reloc.write_value(&mut buf, 5);
    assert!(result.is_err(), "SPLIT_CALL30 should reject non-4-byte-aligned value");
}

#[test]
fn test_split_call36_positive_roundtrip() {
    let reloc = LoongArchRelocation::SPLIT_CALL36;
    let mut buf = call_pair(0x1E00_0001);
    let value: isize = 0x12340;
    reloc.write_value(&mut buf, value).unwrap();
    let read_back = reloc.read_value(&buf);
    assert_eq!(read_back, value);
}

#[test]
fn test_split_call36_negative_roundtrip() {
    let reloc = LoongArchRelocation::SPLIT_CALL36;
    let mut buf = call_pair(0x1E00_0001);
    let value: isize = -0x20000;
    reloc.write_value(&mut buf, value).unwrap();
    let read_back = reloc.read_value(&buf);
    assert_eq!(read_back, value);
}

#[test]
fn test_split_call36_alignment_check() {
    let reloc = LoongArchRelocation::SPLIT_CALL36;
    let mut buf = call_pair(0x1E00_0001);
    let result = reloc.write_value(&mut buf, 5);
    assert!(result.is_err(), "SPLIT_CALL36 should reject non-4-byte-aligned value");
}

// ---- further cases ----

#[test]
fn b16_encodes_offset_in_words() {
    let r = LoongArchRelocation::B16;
    assert_eq!(r.encode(8).unwrap(), 2 << 10);
    assert_eq!(r.encode(-4).unwrap(), 0xFFFF << 10);
    assert!(r.encode(2).is_err());
    assert!(r.encode(1 << 17).is_err());
    assert_eq!(r.encode((1 << 17) - 4).unwrap(), 0x7FFF << 10);
}

#[test]
fn b21_and_b26_split_the_offset() {
    let v: isize = 0x10_0004; // 0x40001 words
    assert_eq!(LoongArchRelocation::B21.encode(v).unwrap(), (0x0001 << 10) | 0x4);
    assert_eq!(LoongArchRelocation::B26.encode(v).unwrap(), (0x0001 << 10) | 0x4);
    assert!(LoongArchRelocation::B21.encode(1 << 22).is_err());
    assert!(LoongArchRelocation::B26.encode(1 << 27).is_err());
    assert!(LoongArchRelocation::B26.encode(6).is_err());
}

#[test]
fn immediate_fields_of_si12_and_si14() {
    assert_eq!(LoongArchRelocation::SI12.encode(-1).unwrap(), 0xFFF << 10);
    assert_eq!(LoongArchRelocation::SI12.encode(2047).unwrap(), 0x7FF << 10);
    assert!(LoongArchRelocation::SI12.encode(2048).is_err());
    assert_eq!(LoongArchRelocation::PCALA_LO12.encode(0x345).unwrap(), 0x345 << 10);
    assert!(LoongArchRelocation::PCALA_LO12.encode(0x12345).is_err());
    assert_eq!(LoongArchRelocation::SI14.encode(16).unwrap(), 4 << 10);
    assert!(LoongArchRelocation::SI14.encode(2).is_err());
}

#[test]
fn abs_hi20_rejects_values_beyond_twenty_bits() {
    assert!(LoongArchRelocation::ABS_HI20.encode(1 << 19).is_err());
    assert_eq!(LoongArchRelocation::ABS_HI20.encode(-1).unwrap(), 0xF_FFFF << 5);
}

#[test]
fn op_masks_keep_the_opcode_bits() {
    assert_eq!(LoongArchRelocation::B16.op_mask(), 0xFC00_03FF);
    assert_eq!(LoongArchRelocation::B21.op_mask(), 0xFC00_03E0);
    assert_eq!(LoongArchRelocation::B26.op_mask(), 0xFC00_0000);
    assert_eq!(LoongArchRelocation::SI14.op_mask(), 0xFF00_03FF);
    assert_eq!(LoongArchRelocation::SI12.op_mask(), 0xFFC0_03FF);
    assert_eq!(LoongArchRelocation::PCALA_HI20.op_mask(), 0xFE00_001F);
    assert_eq!(LoongArchRelocation::SPLIT_PCALA.op_mask(), 0);
}

#[test]
fn write_keeps_the_opcode_and_registers() {
    // beq r4, r5, . : opcode and registers stay, the offset field changes
    let mut buf = [0u8; 4];
    LittleEndian::write_u32(&mut buf, 0x5800_00A4 | (0x1234 << 10));
    LoongArchRelocation::B16.write_value(&mut buf, 16).unwrap();
    assert_eq!(LittleEndian::read_u32(&buf), 0x5800_00A4 | (4 << 10));
    assert_eq!(LoongArchRelocation::B16.read_value(&buf), 16);
}

#[test]
fn failed_write_leaves_buffer_alone() {
    let mut buf = [0x11u8, 0x22, 0x33, 0x44];
    assert!(LoongArchRelocation::B16.write_value(&mut buf, 3).is_err());
    assert_eq!(buf, [0x11, 0x22, 0x33, 0x44]);
}

#[test]
fn split_pcala_fields_land_in_both_words() {
    let mut buf = pcala_pair();
    LoongArchRelocation::SPLIT_PCALA.write_value(&mut buf, 0x12340).unwrap();
    let w1 = LittleEndian::read_u32(&buf[..4]);
    let w2 = LittleEndian::read_u32(&buf[4..]);
    assert_eq!(w1, 0x1A00_0000 | (0x12 << 5));
    assert_eq!(w2, 0x02C0_0000 | (0x340 << 10));
}

#[test]
fn split_call30_and_call36_fields() {
    let mut buf = call_pair(0x1C00_0001);
    LoongArchRelocation::SPLIT_CALL30.write_value(&mut buf, 0x12340).unwrap();
    assert_eq!(LittleEndian::read_u32(&buf[..4]), 0x1C00_0001 | (0x12 << 5));
    assert_eq!(LittleEndian::read_u32(&buf[4..]), 0x4C00_0021 | ((0x340 >> 2) << 10));

    let mut buf = call_pair(0x1E00_0001);
    LoongArchRelocation::SPLIT_CALL36.write_value(&mut buf, 0x60000).unwrap();
    // (0x60000 + 0x20000) >> 18 = 2 ; (0x60000 >> 2) & 0xFFFF = 0x8000
    assert_eq!(LittleEndian::read_u32(&buf[..4]), 0x1E00_0001 | (2 << 5));
    assert_eq!(LittleEndian::read_u32(&buf[4..]), 0x4C00_0021 | (0x8000 << 10));
}

#[test]
fn split_pcala_out_of_range() {
    let mut buf = pcala_pair();
    assert!(LoongArchRelocation::SPLIT_PCALA.write_value(&mut buf, 0x7FFF_F800).is_err());
}

#[test]
fn sizes_and_kinds() {
    assert_eq!(LoongArchRelocation::B16.size(), 4);
    assert_eq!(LoongArchRelocation::SPLIT_CALL36.size(), 8);
    assert_eq!(LoongArchRelocation::Plain(RelocationSize::Word).size(), 2);
    assert_eq!(LoongArchRelocation::from_size(RelocationSize::QWord).size(), 8);
    assert!(matches!(LoongArchRelocation::SI12.kind(), RelocationKind::Relative));
    assert_eq!(LoongArchRelocation::page_size(), 4096);
}

#[test]
fn plain_encodings_name_data_sizes() {
    assert!(matches!(
        LoongArchRelocation::from_encoding((4,)),
        LoongArchRelocation::ABS_HI20
    ));
    assert!(matches!(
        LoongArchRelocation::from_encoding((6,)),
        LoongArchRelocation::B16
    ));
}

#[test]
fn plain_data_round_trips() {
    let r = LoongArchRelocation::Plain(RelocationSize::DWord);
    let mut buf = [0u8; 4];
    r.write_value(&mut buf, -5).unwrap();
    assert_eq!(buf, [0xFB, 0xFF, 0xFF, 0xFF]);
    assert_eq!(r.read_value(&buf), -5);
    let b = LoongArchRelocation::Plain(RelocationSize::Byte);
    let mut one = [0u8; 1];
    assert!(b.write_value(&mut one, 200).is_err());
    b.write_value(&mut one, -128).unwrap();
    assert_eq!(b.read_value(&one), -128);
}

#[test]
fn relocation_size_from_encoding() {
    assert!(matches!(RelocationSize::from_encoding((1,)), RelocationSize::Byte));
    assert!(matches!(RelocationSize::from_encoding((2,)), RelocationSize::Word));
    assert!(matches!(RelocationSize::from_encoding((4,)), RelocationSize::DWord));
    assert!(matches!(RelocationSize::from_encoding((8,)), RelocationSize::QWord));
    let mut q = [0u8; 8];
    RelocationSize::QWord.write_value(&mut q, 0x0102_0304_0506_0708).unwrap();
    assert_eq!(q, [8, 7, 6, 5, 4, 3, 2, 1]);
    assert_eq!(RelocationSize::QWord.read_value(&q), 0x0102_0304_0506_0708);
    let mut w = [0u8; 2];
    assert!(RelocationSize::Word.write_value(&mut w, 40000).is_err());
}

#[test]
fn signed_bitfields() {
    assert!(fits_signed_bitfield(-2048, 12));
    assert!(fits_signed_bitfield(2047, 12));
    assert!(!fits_signed_bitfield(2048, 12));
    assert!(!fits_signed_bitfield(-2049, 12));
    assert!(fits_signed_bitfield(i64::MIN, 64));
}

#[test]
fn read_after_write_law_on_values() {
    // the law stated in reloc_laws, on concrete values
    let cases: &[(LoongArchRelocation, isize)] = &[
        (LoongArchRelocation::ABS_HI20, -0x12345),
        (LoongArchRelocation::SI12, -7),
        (LoongArchRelocation::PCALA_LO12, 0x7FF),
        (LoongArchRelocation::PCALA_HI20, -0x5000),
        (LoongArchRelocation::PCADD_SHIFT2, -0x40),
        (LoongArchRelocation::PCADD_SHIFT12, 0x12345000),
        (LoongArchRelocation::PCADD_SHIFT18, -0x80000),
        (LoongArchRelocation::B16, 0x7FFC),
        (LoongArchRelocation::B21, -0x1234),
        (LoongArchRelocation::SI14, -0x100),
        (LoongArchRelocation::SPLIT_PCALA, 0x800),
        (LoongArchRelocation::SPLIT_CALL30, -0x7FF0_0000),
        (LoongArchRelocation::SPLIT_CALL36, 0x1_2345_6788),
    ];
    for &(r, v) in cases {
        let mut buf = [0xAAu8; 8];
        r.write_value(&mut buf, v).unwrap();
        assert_eq!(r.read_value(&buf), v, "{:?} {}", r, v);
    }
}

#[test]
fn branch_offsets_read_back() {
    let cases: &[(LoongArchRelocation, isize)] = &[
        (LoongArchRelocation::B16, -4),
        (LoongArchRelocation::B16, -0x20000),
        (LoongArchRelocation::B16, 0x1FFFC),
        (LoongArchRelocation::B21, 4),
        (LoongArchRelocation::B21, -4),
        (LoongArchRelocation::B21, 0x12_3454),
        (LoongArchRelocation::B21, -0x40_0000),
        (LoongArchRelocation::B26, 0x1FF_FFFC),
        (LoongArchRelocation::B26, -0x800_0000),
        (LoongArchRelocation::B26, 0x12_3454),
        (LoongArchRelocation::SI14, 4),
        (LoongArchRelocation::SI14, -0x8000),
        (LoongArchRelocation::SI14, 0x7FFC),
    ];
    for &(r, v) in cases {
        let mut buf = [0u8; 4];
        LittleEndian::write_u32(&mut buf, 0xFFFF_FFFF);
        r.write_value(&mut buf, v).unwrap();
        assert_eq!(LittleEndian::read_u32(&buf) & r.op_mask(), r.op_mask());
        assert_eq!(r.read_value(&buf), v, "{:?} {}", r, v);
    }
}

#[test]
fn branch_fields_decode_at_their_places() {
    // offs21 = 0x12345: low 16 bits 0x2345 at [25:10], high 5 bits 0x01 at [4:0]
    let mut buf = [0u8; 4];
    LittleEndian::write_u32(&mut buf, (0x2345 << 10) | 0x01);
    assert_eq!(LoongArchRelocation::B21.read_value(&buf), 0x12345 * 4);
    // offs26 = 0x3FF_FFFF is -1 in 4-byte units
    LittleEndian::write_u32(&mut buf, (0xFFFF << 10) | 0x3FF);
    assert_eq!(LoongArchRelocation::B26.read_value(&buf), -4);
    // offs16 = 0x8000 is the lowest offset
    LittleEndian::write_u32(&mut buf, 0x8000 << 10);
    assert_eq!(LoongArchRelocation::B16.read_value(&buf), -0x20000);
    // si14 = 3 is 12 bytes
    LittleEndian::write_u32(&mut buf, 3 << 10);
    assert_eq!(LoongArchRelocation::SI14.read_value(&buf), 12);
}

#[test]
fn split_pcala_reads_back_across_the_low_sign() {
    for &v in &[0x800isize, 0xFFC, -0x800, -0x804, 0x7FC, -0x8000_0000, 0x7FFF_F7FC, 0x1234_5ABC] {
        let mut buf = pcala_pair();
        LoongArchRelocation::SPLIT_PCALA.write_value(&mut buf, v).unwrap();
        assert_eq!(LoongArchRelocation::SPLIT_PCALA.read_value(&buf), v, "{}", v);
    }
}

#[test]
fn rounded_relocations_read_back_the_rounded_value() {
    let mut buf = [0u8; 4];
    LoongArchRelocation::PCADD_SHIFT12.write_value(&mut buf, 0x1234).unwrap();
    assert_eq!(LoongArchRelocation::PCADD_SHIFT12.read_value(&buf), 0x1000);
    LoongArchRelocation::PCALA_HI20.write_value(&mut buf, 0x1900).unwrap();
    assert_eq!(LoongArchRelocation::PCALA_HI20.read_value(&buf), 0x2000);
    LoongArchRelocation::PCADD_SHIFT18.write_value(&mut buf, 0x60000).unwrap();
    assert_eq!(LoongArchRelocation::PCADD_SHIFT18.read_value(&buf), 0x80000);
}

#[test]
fn error_messages_name_the_architecture() {
    let m = immediate_out_of_range_message(999);
    assert_eq!(m, "Cannot assemble this LoongArch instruction. Immediate 999 is out of range.");
    let m = immediate_out_of_range_message(-999);
    assert_eq!(m, "Cannot assemble this LoongArch instruction. Immediate -999 is out of range.");
    let m = invalid_register_message(0);
    assert_eq!(
        m,
        "Cannot assemble this LoongArch instruction. Register number 0 is invalid for this operand."
    );
    assert!(!m.contains("Aarch64"));
    assert!(!m.contains("RISC-V"));
}

#[test]
fn split_pcala_takes_its_whole_documented_range() {
    let r = LoongArchRelocation::SPLIT_PCALA;
    let mut buf = pcala_pair();
    r.write_value(&mut buf, -0x8000_0800).unwrap();
    // the high part wraps: the lowest offsets read back 2^32 higher
    assert_eq!(r.read_value(&buf), 0x7FFF_F800);
    let mut buf = pcala_pair();
    r.write_value(&mut buf, -0x8000_0004).unwrap();
    assert_eq!(r.read_value(&buf), 0x7FFF_FFFC);
    let mut buf = pcala_pair();
    assert!(r.write_value(&mut buf, -0x8000_0804).is_err());
    assert_eq!(buf, pcala_pair());
    assert!(r.write_value(&mut buf, -0x8000_0802).is_err());
}

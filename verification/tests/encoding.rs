use fuqr::data::{BitVec, Data};
use fuqr::qr_code::{Mode, Version, ECL};

fn get_data_bits(bits: &str) -> BitVec {
    let mut v = BitVec::new();
    for c in bits.chars() {
        match c {
            '1' => v.push_n(1, 1),
            '0' => v.push_n(0, 1),
            _ => continue,
        }
    }
    v
}

#[test]
fn encoding_encode_numeric_works() {
    let data = Data::new("1", Mode::Numeric, Version::new(1), ECL::Low).unwrap();
    assert_eq!(data.bits, get_data_bits("0001 0000000001 0001"));

    let data = Data::new("99", Mode::Numeric, Version::new(1), ECL::Low).unwrap();
    assert_eq!(data.bits, get_data_bits("0001 0000000010 1100011"));

    let data = Data::new("123456", Mode::Numeric, Version::new(1), ECL::Low).unwrap();
    assert_eq!(
        data.bits,
        get_data_bits("0001 0000000110 0001111011 0111001000")
    );
}

#[test]
fn encoding_encode_alphanumeric_works() {
    let data = Data::new("1", Mode::Alphanumeric, Version::new(1), ECL::Low).unwrap();
    assert_eq!(data.bits, get_data_bits("0010 000000001 000001"));

    let data = Data::new("99", Mode::Alphanumeric, Version::new(1), ECL::Low).unwrap();
    assert_eq!(data.bits, get_data_bits("0010 000000010 00110011110"));

    let data = Data::new("ABC1::4", Mode::Alphanumeric, Version::new(1), ECL::Low).unwrap();
    assert_eq!(
        data.bits,
        get_data_bits("0010 000000111 00111001101 01000011101 11111101000 000100")
    );
}

#[test]
fn encoding_encode_byte_works() {
    let data = Data::new("0", Mode::Byte, Version::new(1), ECL::Low).unwrap();
    assert_eq!(data.bits, get_data_bits("0100 00000001 00110000"));
}

#[test]
fn encode_encode_numeric_works() {
    let data = Data::new("1", Mode::Numeric, Version::new(1), ECL::Low).unwrap();
    assert_eq!(data.bits, get_data_bits("0001 0000000001 0001"));

    let data = Data::new("99", Mode::Numeric, Version::new(1), ECL::Low).unwrap();
    assert_eq!(data.bits, get_data_bits("0001 0000000010 1100011"));

    let data = Data::new("123456", Mode::Numeric, Version::new(1), ECL::Low).unwrap();
    assert_eq!(
        data.bits,
        get_data_bits("0001 0000000110 0001111011 0111001000")
    );
}

#[test]
fn encode_encode_alphanumeric_works() {
    let data = Data::new("1", Mode::Alphanumeric, Version::new(1), ECL::Low).unwrap();
    assert_eq!(data.bits, get_data_bits("0010 000000001 000001"));

    let data = Data::new("99", Mode::Alphanumeric, Version::new(1), ECL::Low).unwrap();
    assert_eq!(data.bits, get_data_bits("0010 000000010 00110011110"));

    let data = Data::new("ABC1::4", Mode::Alphanumeric, Version::new(1), ECL::Low).unwrap();
    assert_eq!(
        data.bits,
        get_data_bits("0010 000000111 00111001101 01000011101 11111101000 000100")
    );
}

#[test]
fn encode_encode_byte_works() {
    let data = Data::new("0", Mode::Byte, Version::new(1), ECL::Low).unwrap();
    assert_eq!(data.bits, get_data_bits("0100 00000001 00110000"));
}

#[test]
fn qr_encode_numeric_works() {
    let data = Data::new("1", Mode::Numeric, Version::new(1), ECL::Low).unwrap();
    assert_eq!(data.bits, get_data_bits("0001 0000000001 0001"));

    let data = Data::new("99", Mode::Numeric, Version::new(1), ECL::Low).unwrap();
    assert_eq!(data.bits, get_data_bits("0001 0000000010 1100011"));

    let data = Data::new("123456", Mode::Numeric, Version::new(1), ECL::Low).unwrap();
    assert_eq!(
        data.bits,
        get_data_bits("0001 0000000110 0001111011 0111001000")
    );
}

#[test]
fn qr_encode_alphanumeric_works() {
    let data = Data::new("1", Mode::Alphanumeric, Version::new(1), ECL::Low).unwrap();
    assert_eq!(data.bits, get_data_bits("0010 000000001 000001"));

    let data = Data::new("99", Mode::Alphanumeric, Version::new(1), ECL::Low).unwrap();
    assert_eq!(data.bits, get_data_bits("0010 000000010 00110011110"));

    let data = Data::new("ABC1::4", Mode::Alphanumeric, Version::new(1), ECL::Low).unwrap();
    assert_eq!(
        data.bits,
        get_data_bits("0010 000000111 00111001101 01000011101 11111101000 000100")
    );
}

#[test]
fn qr_encode_byte_works() {
    let data = Data::new("0", Mode::Byte, Version::new(1), ECL::Low).unwrap();
    assert_eq!(data.bits, get_data_bits("0100 00000001 00110000"));
}

#[test]
fn bitvec_push_get_set_roundtrip() {
    let mut v = BitVec::new();
    v.push_n(0b1011, 4);
    v.push_n(0xA5, 8);
    assert_eq!(v.len(), 12);
    assert!(v.get(0));
    assert!(!v.get(1));
    assert!(v.get(2));
    assert!(v.get(3));
    assert!(v.get(4));
    assert!(!v.get(5));
    v.set(1);
    assert!(v.get(1));
    assert!(v.get(0));
    assert!(v.get(11));
    let bytes = v.to_bytes();
    assert_eq!(bytes, vec![0b1111_1010, 0b0101_0000]);
}

#[test]
fn bitvec_resize_fills_whole_bytes() {
    let mut v = BitVec::new();
    v.push_n(0b101, 3);
    v.resize(24, 0xEC);
    assert_eq!(v.len(), 24);
    let bytes = v.to_bytes();
    assert_eq!(bytes, vec![0b1010_0000, 0xEC, 0xEC]);
}

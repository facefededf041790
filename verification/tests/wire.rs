use x11rb::wire::parse_bool;
use x11rb::wire::parse_i16;
use x11rb::wire::parse_u16;
use x11rb::wire::parse_u32;
use x11rb::wire::parse_u8;
use x11rb::wire::serialize_bool;
use x11rb::wire::serialize_i16;
use x11rb::wire::serialize_u16;
use x11rb::wire::serialize_u32;
use x11rb::wire::serialize_u8;
use x11rb::wire::skip;
use x11rb::wire::ByteOrder;
use x11rb::wire::ParseError;

const ORDERS: [ByteOrder; 2] = [ByteOrder::LittleEndian, ByteOrder::BigEndian];

#[test]
fn u16_layout_in_both_orders() {
    assert_eq!(serialize_u16(ByteOrder::LittleEndian, 0x1234), [0x34, 0x12]);
    assert_eq!(serialize_u16(ByteOrder::BigEndian, 0x1234), [0x12, 0x34]);
}

#[test]
fn u32_layout_in_both_orders() {
    assert_eq!(
        serialize_u32(ByteOrder::LittleEndian, 0x0102_0304),
        [0x04, 0x03, 0x02, 0x01]
    );
    assert_eq!(
        serialize_u32(ByteOrder::BigEndian, 0x0102_0304),
        [0x01, 0x02, 0x03, 0x04]
    );
}

#[test]
fn i16_layout_is_twos_complement() {
    assert_eq!(serialize_i16(ByteOrder::LittleEndian, -2), [0xfe, 0xff]);
    assert_eq!(serialize_i16(ByteOrder::BigEndian, -2), [0xff, 0xfe]);
    assert_eq!(serialize_i16(ByteOrder::LittleEndian, i16::MIN), [0x00, 0x80]);
    assert_eq!(serialize_i16(ByteOrder::LittleEndian, i16::MAX), [0xff, 0x7f]);
}

#[test]
fn bool_is_one_byte_zero_or_one() {
    assert_eq!(serialize_bool(true), [1]);
    assert_eq!(serialize_bool(false), [0]);
    assert_eq!(serialize_u8(0xab), [0xab]);
}

#[test]
fn bool_decodes_any_nonzero_byte_as_true() {
    assert_eq!(parse_bool(&[0, 9]).unwrap(), (false, &[9u8][..]));
    assert_eq!(parse_bool(&[1]).unwrap().0, true);
    assert_eq!(parse_bool(&[0x80]).unwrap().0, true);
}

#[test]
fn u8_roundtrip_all_values() {
    for v in 0..=u8::MAX {
        let bytes = serialize_u8(v);
        assert_eq!(parse_u8(&bytes).unwrap(), (v, &[][..]));
    }
}

#[test]
fn u16_roundtrip_all_values() {
    for order in ORDERS {
        for v in 0..=u16::MAX {
            let bytes = serialize_u16(order, v);
            let (back, rest) = parse_u16(order, &bytes).unwrap();
            assert_eq!(back, v);
            assert!(rest.is_empty());
        }
    }
}

#[test]
fn i16_roundtrip_all_values() {
    for order in ORDERS {
        for v in i16::MIN..=i16::MAX {
            let bytes = serialize_i16(order, v);
            let (back, rest) = parse_i16(order, &bytes).unwrap();
            assert_eq!(back, v);
            assert!(rest.is_empty());
        }
    }
}

#[test]
fn u32_roundtrip_edge_values() {
    for order in ORDERS {
        for v in [0u32, 1, 0xff, 0x100, 0xffff, 0x1_0000, 0xdead_beef, u32::MAX] {
            let bytes = serialize_u32(order, v);
            let (back, rest) = parse_u32(order, &bytes).unwrap();
            assert_eq!(back, v);
            assert!(rest.is_empty());
        }
    }
}

#[test]
fn bool_roundtrip() {
    for v in [false, true] {
        assert_eq!(parse_bool(&serialize_bool(v)).unwrap().0, v);
    }
}

#[test]
fn decoding_leaves_the_remaining_bytes() {
    let bytes = [0x78, 0x56, 0x34, 0x12, 0xaa, 0xbb];
    let (v, rest) = parse_u32(ByteOrder::LittleEndian, &bytes).unwrap();
    assert_eq!(v, 0x1234_5678);
    assert_eq!(rest, &[0xaa, 0xbb]);
    let (w, rest) = parse_u16(ByteOrder::BigEndian, rest).unwrap();
    assert_eq!(w, 0xaabb);
    assert!(rest.is_empty());
}

#[test]
fn short_input_is_a_parse_failure() {
    assert_eq!(parse_u8(&[]), Err(ParseError::ParseError));
    assert_eq!(parse_bool(&[]), Err(ParseError::ParseError));
    for order in ORDERS {
        assert_eq!(parse_u16(order, &[1]), Err(ParseError::ParseError));
        assert_eq!(parse_i16(order, &[]), Err(ParseError::ParseError));
        assert_eq!(parse_u32(order, &[1, 2, 3]), Err(ParseError::ParseError));
    }
}

#[test]
fn skip_drops_exactly_the_bytes_asked_for() {
    let bytes = [1u8, 2, 3, 4];
    assert_eq!(skip(&bytes, 0).unwrap(), &bytes[..]);
    assert_eq!(skip(&bytes, 3).unwrap(), &[4]);
    assert!(skip(&bytes, 4).unwrap().is_empty());
    assert_eq!(skip(&bytes, 5), Err(ParseError::ParseError));
}

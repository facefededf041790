use x11rb::request::append;
use x11rb::request::append_zeros;
use x11rb::request::build_request;
use x11rb::request::padding_for;
use x11rb::request::parse_byte_list;
use x11rb::request::parse_word_list;
use x11rb::request::serialize_byte_list;
use x11rb::request::serialize_optional_fields;
use x11rb::request::serialize_word_list;
use x11rb::wire::parse_u16;
use x11rb::wire::ByteOrder;
use x11rb::wire::ParseError;

const LE: ByteOrder = ByteOrder::LittleEndian;
const BE: ByteOrder = ByteOrder::BigEndian;

#[test]
fn padding_brings_a_length_to_the_next_multiple_of_four() {
    assert_eq!(padding_for(0), 0);
    assert_eq!(padding_for(1), 3);
    assert_eq!(padding_for(2), 2);
    assert_eq!(padding_for(3), 1);
    assert_eq!(padding_for(4), 0);
    assert_eq!(padding_for(7), 1);
    assert_eq!(padding_for(usize::MAX), 1);
}

#[test]
fn append_adds_bytes_at_the_end() {
    let mut out = vec![1u8];
    append(&mut out, &[2, 3]);
    append_zeros(&mut out, 2);
    append(&mut out, &[]);
    assert_eq!(out, vec![1, 2, 3, 0, 0]);
}

#[test]
fn request_header_holds_opcodes_and_length_in_units() {
    let r = build_request(LE, 130, 4, &[9, 8, 7, 6, 5, 4, 3, 2]);
    assert_eq!(r, vec![130, 4, 3, 0, 9, 8, 7, 6, 5, 4, 3, 2]);
    let r = build_request(BE, 130, 4, &[9, 8, 7, 6]);
    assert_eq!(r, vec![130, 4, 0, 2, 9, 8, 7, 6]);
}

#[test]
fn request_without_body_is_one_unit() {
    assert_eq!(build_request(LE, 1, 2, &[]), vec![1, 2, 1, 0]);
}

#[test]
fn request_length_is_a_multiple_of_four_and_the_field_says_it() {
    for units in [0usize, 1, 2, 5, 100, 1000] {
        let body = vec![0xa5u8; units * 4];
        for order in [LE, BE] {
            let r = build_request(order, 7, 0, &body);
            assert_eq!(r.len() % 4, 0);
            let (field, _) = parse_u16(order, &r[2..]).unwrap();
            assert_eq!(field as usize, r.len() / 4);
        }
    }
}

#[test]
fn request_of_the_largest_length_that_fits() {
    let body = vec![0u8; 4 * 0xffff - 4];
    let r = build_request(LE, 7, 0, &body);
    assert_eq!(r.len(), 4 * 0xffff);
    assert_eq!(&r[2..4], &[0xff, 0xff]);
}

#[test]
fn request_too_long_for_the_field_has_length_zero() {
    let body = vec![0u8; 4 * 0xffff];
    let r = build_request(LE, 7, 0, &body);
    assert_eq!(r.len(), 4 * 0xffff + 4);
    assert_eq!(&r[2..4], &[0, 0]);
}

#[test]
fn byte_list_is_count_bytes_and_padding() {
    let r = serialize_byte_list(LE, b"hello").unwrap();
    assert_eq!(r, vec![5, 0, 0, 0, b'h', b'e', b'l', b'l', b'o', 0, 0, 0]);
    let r = serialize_byte_list(BE, b"abcd").unwrap();
    assert_eq!(r, vec![0, 0, 0, 4, b'a', b'b', b'c', b'd']);
    assert_eq!(serialize_byte_list(LE, &[]).unwrap(), vec![0, 0, 0, 0]);
}

#[test]
fn byte_list_roundtrip() {
    for order in [LE, BE] {
        for len in 0..9usize {
            let data: Vec<u8> = (0..len as u8).map(|b| b.wrapping_mul(37)).collect();
            let mut bytes = serialize_byte_list(order, &data).unwrap();
            assert_eq!(bytes.len() % 4, 0);
            bytes.extend_from_slice(&[0xee, 0xff]);
            let (back, rest) = parse_byte_list(order, &bytes).unwrap();
            assert_eq!(back, data);
            assert_eq!(rest, &[0xee, 0xff]);
        }
    }
}

#[test]
fn byte_list_cut_short_is_a_parse_failure() {
    // The count alone is missing a byte.
    assert_eq!(parse_byte_list(LE, &[3, 0, 0]), Err(ParseError::ParseError));
    // Three bytes announced, two there.
    assert_eq!(
        parse_byte_list(LE, &[3, 0, 0, 0, 1, 2]),
        Err(ParseError::ParseError)
    );
    // The bytes are there, the padding is not.
    assert_eq!(
        parse_byte_list(LE, &[3, 0, 0, 0, 1, 2, 3]),
        Err(ParseError::ParseError)
    );
    assert!(parse_byte_list(LE, &[3, 0, 0, 0, 1, 2, 3, 0]).is_ok());
    // A count far beyond the input.
    assert_eq!(
        parse_byte_list(LE, &[0xff, 0xff, 0xff, 0xff, 1, 2, 3, 4]),
        Err(ParseError::ParseError)
    );
}

#[test]
fn word_list_is_count_and_fields() {
    let r = serialize_word_list(LE, &[1, 0x0102_0304]).unwrap();
    assert_eq!(r, vec![2, 0, 0, 0, 1, 0, 0, 0, 4, 3, 2, 1]);
    assert_eq!(serialize_word_list(BE, &[]).unwrap(), vec![0, 0, 0, 0]);
}

#[test]
fn word_list_roundtrip() {
    for order in [LE, BE] {
        let items = vec![0u32, 1, 0xffff_ffff, 0x8000_0000, 42];
        let mut bytes = serialize_word_list(order, &items).unwrap();
        bytes.push(0x77);
        let (back, rest) = parse_word_list(order, &bytes).unwrap();
        assert_eq!(back, items);
        assert_eq!(rest, &[0x77]);
    }
}

#[test]
fn word_list_cut_short_is_a_parse_failure() {
    assert_eq!(parse_word_list(LE, &[1, 0]), Err(ParseError::ParseError));
    assert_eq!(
        parse_word_list(LE, &[2, 0, 0, 0, 1, 0, 0, 0, 2, 0, 0]),
        Err(ParseError::ParseError)
    );
    assert_eq!(
        parse_word_list(BE, &[0xff, 0xff, 0xff, 0xff]),
        Err(ParseError::ParseError)
    );
}

#[test]
fn optional_fields_mask_and_values_in_bit_order() {
    let fields = [Some(0x11u32), None, Some(0x22), None, None, Some(0x33)];
    let r = serialize_optional_fields(LE, &fields).unwrap();
    assert_eq!(
        r,
        vec![0b10_0101, 0, 0, 0, 0x11, 0, 0, 0, 0x22, 0, 0, 0, 0x33, 0, 0, 0]
    );
}

#[test]
fn optional_fields_none_supplied() {
    assert_eq!(serialize_optional_fields(LE, &[]).unwrap(), vec![0, 0, 0, 0]);
    assert_eq!(
        serialize_optional_fields(BE, &[None, None, None]).unwrap(),
        vec![0, 0, 0, 0]
    );
}

#[test]
fn optional_fields_all_thirty_two_supplied() {
    let fields: Vec<Option<u32>> = (0..32u32).map(Some).collect();
    let r = serialize_optional_fields(BE, &fields).unwrap();
    assert_eq!(r.len(), 4 + 32 * 4);
    assert_eq!(&r[..4], &[0xff, 0xff, 0xff, 0xff]);
    assert_eq!(&r[4..8], &[0, 0, 0, 0]);
    assert_eq!(&r[r.len() - 4..], &[0, 0, 0, 31]);
}

#[test]
fn optional_fields_highest_bit_alone() {
    let mut fields: Vec<Option<u32>> = vec![None; 32];
    fields[31] = Some(5);
    let r = serialize_optional_fields(LE, &fields).unwrap();
    assert_eq!(r, vec![0, 0, 0, 0x80, 5, 0, 0, 0]);
}

#[test]
fn optional_fields_more_than_thirty_two_are_refused() {
    let fields: Vec<Option<u32>> = vec![None; 33];
    assert_eq!(serialize_optional_fields(LE, &fields), None);
}

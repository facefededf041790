use x11rb::dispatch::classify;
use x11rb::dispatch::decode_event;
use x11rb::dispatch::packet_length;
use x11rb::dispatch::Event;
use x11rb::dispatch::UnitKind;
use x11rb::dispatch::ERROR_TAG;
use x11rb::dispatch::GENERIC_EVENT_TAG;
use x11rb::dispatch::REPLY_TAG;
use x11rb::dispatch::UNIT_HEADER_LENGTH;
use x11rb::extension::ExtensionInformation;
use x11rb::extension::ExtensionRegistry;
use x11rb::shm::CompletionEvent;
use x11rb::wire::ByteOrder;
use x11rb::wire::ParseError;
use x11rb::xproto::query_extension_request;
use x11rb::xproto::QueryExtensionReply;

const LE: ByteOrder = ByteOrder::LittleEndian;
const BE: ByteOrder = ByteOrder::BigEndian;

#[test]
fn tags() {
    assert_eq!(ERROR_TAG, 0);
    assert_eq!(REPLY_TAG, 1);
    assert_eq!(GENERIC_EVENT_TAG, 35);
    assert_eq!(UNIT_HEADER_LENGTH, 32);
}

#[test]
fn classify_by_leading_byte() {
    assert_eq!(classify(0), UnitKind::Error);
    assert_eq!(classify(1), UnitKind::Reply);
    assert_eq!(classify(35), UnitKind::GenericEvent);
    for tag in 2..=255u8 {
        if tag != 35 {
            assert_eq!(classify(tag), UnitKind::Event);
        }
    }
}

#[test]
fn packet_length_of_fixed_units() {
    let mut header = [0u8; 32];
    header[4] = 7;
    assert_eq!(packet_length(LE, &header), Ok(32));
    header[0] = 2;
    assert_eq!(packet_length(LE, &header), Ok(32));
    header[0] = 200;
    assert_eq!(packet_length(BE, &header), Ok(32));
}

#[test]
fn packet_length_of_replies_and_generic_events() {
    let mut header = [0u8; 40];
    header[0] = 1;
    assert_eq!(packet_length(LE, &header), Ok(32));
    header[4] = 3;
    assert_eq!(packet_length(LE, &header), Ok(44));
    assert_eq!(packet_length(BE, &header), Ok(32 + 4 * 0x0300_0000));
    header[0] = 35;
    header[4] = 0;
    header[7] = 1;
    assert_eq!(packet_length(BE, &header), Ok(36));
    header[4..8].copy_from_slice(&[0xff; 4]);
    assert_eq!(packet_length(LE, &header), Ok(32 + 4 * 0xffff_ffff));
}

#[test]
fn packet_length_needs_a_whole_header() {
    assert_eq!(packet_length(LE, &[1u8; 31]), Err(ParseError::ParseError));
    assert_eq!(packet_length(LE, &[]), Err(ParseError::ParseError));
}

#[test]
fn decode_event_without_the_extension_is_unknown() {
    let bytes = vec![65u8; 32];
    assert_eq!(decode_event(LE, None, bytes.clone()), Event::Unknown(bytes));
}

#[test]
fn decode_event_picks_the_completion_event_by_its_code() {
    let info = ExtensionInformation { major_opcode: 130, first_event: 65, first_error: 128 };
    let event = CompletionEvent {
        response_type: 65,
        sequence: 1,
        drawable: 2,
        minor_event: 3,
        major_event: 4,
        shmseg: 5,
        offset: 6,
    };
    let bytes = event.serialize(BE).to_vec();
    assert_eq!(decode_event(BE, Some(info), bytes.clone()), Event::ShmCompletion(event));
    // An event is 32 bytes: what is shorter is no Completion event.
    for len in [20usize, 31] {
        assert_eq!(
            decode_event(BE, Some(info), bytes[..len].to_vec()),
            Event::Unknown(bytes[..len].to_vec())
        );
    }
    assert_eq!(decode_event(BE, Some(info), Vec::new()), Event::Unknown(Vec::new()));
    let mut other = bytes.clone();
    other[0] = 64;
    assert_eq!(decode_event(BE, Some(info), other.clone()), Event::Unknown(other));
}

#[test]
fn decode_event_never_takes_a_reply_error_or_generic_event_for_an_event() {
    for (first_event, tag) in [(0u8, 0u8), (1, 1), (35, 35), (0, 128), (1, 129)] {
        let info = ExtensionInformation { major_opcode: 130, first_event, first_error: 0 };
        let mut bytes = vec![0u8; 32];
        bytes[0] = tag;
        let decoded = decode_event(LE, Some(info), bytes.clone());
        if tag < 128 {
            assert_eq!(decoded, Event::Unknown(bytes));
        } else {
            assert!(matches!(decoded, Event::ShmCompletion(_)));
        }
    }
}

#[test]
fn decode_event_with_the_highest_first_event_code() {
    let info = ExtensionInformation { major_opcode: 130, first_event: 255, first_error: 0 };
    let bytes = vec![127u8; 32];
    assert_eq!(decode_event(LE, Some(info), bytes.clone()), Event::Unknown(bytes));
}

#[test]
fn registry_keeps_the_latest_information_by_name() {
    let mut registry = ExtensionRegistry::new();
    assert_eq!(registry.lookup("MIT-SHM"), None);
    let first = ExtensionInformation { major_opcode: 130, first_event: 65, first_error: 128 };
    let second = ExtensionInformation { major_opcode: 131, first_event: 66, first_error: 129 };
    registry.insert("MIT-SHM", first);
    registry.insert("RANDR", second);
    assert_eq!(registry.lookup("MIT-SHM"), Some(first));
    assert_eq!(registry.lookup("RANDR"), Some(second));
    assert_eq!(registry.lookup("mit-shm"), None);
    assert_eq!(registry.lookup(""), None);
    registry.insert("MIT-SHM", second);
    assert_eq!(registry.lookup("MIT-SHM"), Some(second));
}

#[test]
fn query_extension_request_layout() {
    assert_eq!(
        query_extension_request(LE, b"RANDR").unwrap(),
        vec![98, 0, 4, 0, 5, 0, 0, 0, b'R', b'A', b'N', b'D', b'R', 0, 0, 0]
    );
    assert_eq!(
        query_extension_request(BE, b"ABCD").unwrap(),
        vec![98, 0, 0, 3, 0, 4, 0, 0, b'A', b'B', b'C', b'D']
    );
    assert_eq!(query_extension_request(LE, b"").unwrap(), vec![98, 0, 2, 0, 0, 0, 0, 0]);
    assert_eq!(query_extension_request(LE, &vec![b'x'; 65536]), None);
    assert!(query_extension_request(LE, &vec![b'x'; 65535]).is_some());
}

#[test]
fn query_extension_reply_fields() {
    let mut bytes = vec![1u8, 0, 2, 0, 0, 0, 0, 0, 1, 130, 65, 128];
    bytes.extend_from_slice(&[0; 20]);
    bytes.push(9);
    let (reply, rest) = QueryExtensionReply::try_parse(LE, &bytes).unwrap();
    assert_eq!(
        reply,
        QueryExtensionReply {
            response_type: 1,
            sequence: 2,
            length: 0,
            present: true,
            major_opcode: 130,
            first_event: 65,
            first_error: 128,
        }
    );
    assert_eq!(rest, &[9]);
    for len in [0usize, 11, 12, 31] {
        assert!(QueryExtensionReply::try_parse(LE, &bytes[..len]).is_err());
    }
}

#[test]
fn get_input_focus_request_layout() {
    assert_eq!(x11rb::xproto::get_input_focus_request(LE), vec![43, 0, 1, 0]);
    assert_eq!(x11rb::xproto::get_input_focus_request(BE), vec![43, 0, 0, 1]);
}

use x11rb::shm::attach_fd_request;
use x11rb::shm::attach_request;
use x11rb::shm::create_pixmap_request;
use x11rb::shm::create_segment_request;
use x11rb::shm::detach_request;
use x11rb::shm::get_image_request;
use x11rb::shm::put_image_request;
use x11rb::shm::query_version_request;
use x11rb::shm::CompletionEvent;
use x11rb::shm::CreateSegmentReply;
use x11rb::shm::GetImage;
use x11rb::shm::GetImageReply;
use x11rb::shm::PutImage;
use x11rb::shm::QueryVersionReply;
use x11rb::shm::X11_EXTENSION_NAME;
use x11rb::shm::X11_XML_VERSION;
use x11rb::utils::RawFdContainer;
use x11rb::wire::ByteOrder;
use x11rb::wire::ParseError;

const LE: ByteOrder = ByteOrder::LittleEndian;
const BE: ByteOrder = ByteOrder::BigEndian;

fn sample_event() -> CompletionEvent {
    CompletionEvent {
        response_type: 65,
        sequence: 0x0102,
        drawable: 0x0a0b_0c0d,
        minor_event: 3,
        major_event: 130,
        shmseg: 0x1122_3344,
        offset: 0x5566_7788,
    }
}

#[test]
fn extension_name_and_version() {
    assert_eq!(X11_EXTENSION_NAME, "MIT-SHM");
    assert_eq!(X11_XML_VERSION, (1, 2));
}

#[test]
fn completion_event_layout() {
    let bytes = sample_event().serialize(LE);
    let mut expected = vec![
        65, 0, 0x02, 0x01, 0x0d, 0x0c, 0x0b, 0x0a, 3, 0, 130, 0, 0x44, 0x33, 0x22, 0x11, 0x88,
        0x77, 0x66, 0x55,
    ];
    expected.extend_from_slice(&[0; 12]);
    assert_eq!(bytes.to_vec(), expected);
}

#[test]
fn completion_event_roundtrip() {
    for order in [LE, BE] {
        let event = sample_event();
        let bytes = event.serialize(order);
        assert_eq!(bytes.len(), 32);
        let (back, rest) = CompletionEvent::try_parse(order, &bytes).unwrap();
        assert_eq!(back, event);
        assert!(rest.is_empty());
        let mut longer = bytes.to_vec();
        longer.extend_from_slice(&[7, 8]);
        let (back, rest) = CompletionEvent::try_parse(order, &longer).unwrap();
        assert_eq!(back, event);
        assert_eq!(rest, &[7, 8]);
        assert_eq!(CompletionEvent::try_from(order, &bytes), Ok(event));
    }
}

#[test]
fn completion_event_cut_short_is_a_parse_failure() {
    let bytes = sample_event().serialize(LE);
    // The fields end at byte 20, the event at byte 32.
    for len in [0usize, 19, 20, 31] {
        assert_eq!(
            CompletionEvent::try_parse(LE, &bytes[..len]).map(|r| r.0),
            Err(ParseError::ParseError)
        );
        assert_eq!(CompletionEvent::try_from(LE, &bytes[..len]), Err(ParseError::ParseError));
    }
    assert!(CompletionEvent::try_parse(LE, &bytes[..32]).is_ok());
}

#[test]
fn query_version_reply_fields() {
    let mut bytes = vec![1u8, 1, 7, 0, 0, 0, 0, 0, 1, 0, 2, 0, 0xe8, 0x03, 0x64, 0, 2];
    bytes.extend_from_slice(&[0; 15]);
    bytes.push(0x99);
    let (reply, rest) = QueryVersionReply::try_parse(LE, &bytes).unwrap();
    assert_eq!(
        reply,
        QueryVersionReply {
            response_type: 1,
            shared_pixmaps: true,
            sequence: 7,
            length: 0,
            major_version: 1,
            minor_version: 2,
            uid: 1000,
            gid: 100,
            pixmap_format: 2,
        }
    );
    assert_eq!(rest, &[0x99]);
}

#[test]
fn query_version_reply_needs_its_padding() {
    let bytes = [0u8; 32];
    assert!(QueryVersionReply::try_parse(LE, &bytes).is_ok());
    assert_eq!(
        QueryVersionReply::try_parse(LE, &bytes[..31]).map(|r| r.0),
        Err(ParseError::ParseError)
    );
    assert_eq!(
        QueryVersionReply::try_from(BE, &bytes[..16]),
        Err(ParseError::ParseError)
    );
}

#[test]
fn get_image_reply_fields() {
    let mut bytes = vec![1u8, 24, 0, 9, 0, 0, 0, 0, 0, 0, 0, 0x21, 0, 0, 0x01, 0x90];
    bytes.extend_from_slice(&[0; 16]);
    bytes.extend_from_slice(&[5, 5]);
    let (reply, rest) = GetImageReply::try_parse(BE, &bytes).unwrap();
    assert_eq!(
        reply,
        GetImageReply {
            response_type: 1,
            depth: 24,
            sequence: 9,
            length: 0,
            visual: 0x21,
            size: 400,
        }
    );
    assert_eq!(rest, &[5, 5]);
    // The fields end at byte 16, the reply at byte 32.
    for len in [0usize, 15, 16, 31] {
        assert_eq!(GetImageReply::try_from(BE, &bytes[..len]), Err(ParseError::ParseError));
        assert!(GetImageReply::try_parse(BE, &bytes[..len]).is_err());
    }
    assert!(GetImageReply::try_from(BE, &bytes[..32]).is_ok());
}

#[test]
fn create_segment_reply_takes_the_first_descriptor() {
    let mut bytes = vec![1u8, 1, 3, 0, 0, 0, 0, 0];
    bytes.extend_from_slice(&[0; 24]);
    let mut fds = vec![RawFdContainer::new(10), RawFdContainer::new(11)];
    let (reply, rest) = CreateSegmentReply::try_parse_fd(LE, &bytes, &mut fds).unwrap();
    assert_eq!(
        reply,
        CreateSegmentReply {
            response_type: 1,
            nfd: 1,
            sequence: 3,
            length: 0,
            shm_fd: RawFdContainer::new(10),
        }
    );
    assert!(rest.is_empty());
    assert_eq!(fds, vec![RawFdContainer::new(11)]);
}

#[test]
fn create_segment_reply_without_a_descriptor_is_a_parse_failure() {
    let bytes = [0u8; 32];
    let mut fds = Vec::new();
    assert!(CreateSegmentReply::try_parse_fd(LE, &bytes, &mut fds).is_err());
    assert!(fds.is_empty());
    assert_eq!(
        CreateSegmentReply::try_from(LE, &bytes, Vec::new()),
        Err(ParseError::ParseError)
    );
}

#[test]
fn create_segment_reply_cut_short_before_its_fields_keeps_the_descriptor() {
    let bytes = [1u8, 1, 3, 0, 0, 0, 0];
    let mut fds = vec![RawFdContainer::new(10)];
    assert!(CreateSegmentReply::try_parse_fd(LE, &bytes, &mut fds).is_err());
    assert_eq!(fds, vec![RawFdContainer::new(10)]);
}

#[test]
fn create_segment_reply_cut_short_after_its_fields_keeps_the_descriptors() {
    let bytes = [1u8; 31];
    let mut fds = vec![RawFdContainer::new(10), RawFdContainer::new(11)];
    assert!(CreateSegmentReply::try_parse_fd(LE, &bytes[..10], &mut fds).is_err());
    assert!(CreateSegmentReply::try_parse_fd(LE, &bytes, &mut fds).is_err());
    assert_eq!(fds, vec![RawFdContainer::new(10), RawFdContainer::new(11)]);
}

#[test]
fn create_segment_reply_from_buffer_takes_exactly_one_descriptor() {
    let bytes = [1u8; 32];
    assert_eq!(
        CreateSegmentReply::try_from(
            LE,
            &bytes,
            vec![RawFdContainer::new(10), RawFdContainer::new(11)]
        ),
        Err(ParseError::ParseError)
    );
    assert_eq!(
        CreateSegmentReply::try_from(LE, &bytes[..31], vec![RawFdContainer::new(10)]),
        Err(ParseError::ParseError)
    );
    assert!(CreateSegmentReply::try_from(LE, &bytes, vec![RawFdContainer::new(10)]).is_ok());
}

#[test]
fn create_segment_reply_from_buffer_and_descriptors() {
    let mut bytes = vec![1u8, 1, 0, 4, 0, 0, 0, 0];
    bytes.extend_from_slice(&[0; 24]);
    let reply = CreateSegmentReply::try_from(BE, &bytes, vec![RawFdContainer::new(5)]).unwrap();
    assert_eq!(reply.sequence, 4);
    assert_eq!(reply.shm_fd.into_raw_fd(), 5);
}

#[test]
fn query_version_request_layout() {
    assert_eq!(query_version_request(LE, 130), vec![130, 0, 1, 0]);
    assert_eq!(query_version_request(BE, 130), vec![130, 0, 0, 1]);
}

#[test]
fn attach_request_layout() {
    assert_eq!(
        attach_request(LE, 130, 3, 1234, false),
        vec![130, 1, 4, 0, 3, 0, 0, 0, 0xd2, 0x04, 0, 0, 0, 0, 0, 0]
    );
    assert_eq!(
        attach_request(BE, 130, 3, 1234, true),
        vec![130, 1, 0, 4, 0, 0, 0, 3, 0, 0, 0x04, 0xd2, 1, 0, 0, 0]
    );
}

#[test]
fn detach_request_layout() {
    assert_eq!(detach_request(LE, 130, 0x0102_0304), vec![130, 2, 2, 0, 4, 3, 2, 1]);
}

#[test]
fn put_image_request_layout() {
    let fields = PutImage {
        drawable: 1,
        gc: 2,
        total_width: 3,
        total_height: 4,
        src_x: 5,
        src_y: 6,
        src_width: 7,
        src_height: 8,
        dst_x: -1,
        dst_y: 9,
        depth: 24,
        format: 2,
        send_event: true,
        shmseg: 10,
        offset: 11,
    };
    assert_eq!(
        put_image_request(LE, 130, &fields),
        vec![
            130, 3, 10, 0, 1, 0, 0, 0, 2, 0, 0, 0, 3, 0, 4, 0, 5, 0, 6, 0, 7, 0, 8, 0, 0xff, 0xff,
            9, 0, 24, 2, 1, 0, 10, 0, 0, 0, 11, 0, 0, 0
        ]
    );
}

#[test]
fn get_image_request_layout() {
    let fields = GetImage {
        drawable: 5,
        x: 0,
        y: 0,
        width: 10,
        height: 10,
        plane_mask: 0xffff_ffff,
        format: 2,
        shmseg: 7,
        offset: 0,
    };
    assert_eq!(
        get_image_request(LE, 130, &fields),
        vec![
            130, 4, 8, 0, 5, 0, 0, 0, 0, 0, 0, 0, 10, 0, 10, 0, 0xff, 0xff, 0xff, 0xff, 2, 0, 0,
            0, 7, 0, 0, 0, 0, 0, 0, 0
        ]
    );
}

#[test]
fn create_pixmap_request_layout() {
    assert_eq!(
        create_pixmap_request(BE, 130, 1, 2, 3, 4, 24, 5, 6),
        vec![
            130, 5, 0, 7, 0, 0, 0, 1, 0, 0, 0, 2, 0, 3, 0, 4, 24, 0, 0, 0, 0, 0, 0, 5, 0, 0, 0, 6
        ]
    );
}

#[test]
fn attach_fd_request_layout() {
    assert_eq!(
        attach_fd_request(LE, 130, 9, true),
        vec![130, 6, 3, 0, 9, 0, 0, 0, 1, 0, 0, 0]
    );
}

#[test]
fn create_segment_request_layout() {
    assert_eq!(
        create_segment_request(LE, 130, 9, 4096, false),
        vec![130, 7, 4, 0, 9, 0, 0, 0, 0, 0x10, 0, 0, 0, 0, 0, 0]
    );
}

#[test]
fn every_request_is_whole_units_and_says_how_many() {
    let put = PutImage {
        drawable: 1,
        gc: 2,
        total_width: 3,
        total_height: 4,
        src_x: 5,
        src_y: 6,
        src_width: 7,
        src_height: 8,
        dst_x: 9,
        dst_y: 10,
        depth: 11,
        format: 12,
        send_event: false,
        shmseg: 13,
        offset: 14,
    };
    let get = GetImage {
        drawable: 1,
        x: -3,
        y: 4,
        width: 5,
        height: 6,
        plane_mask: 7,
        format: 8,
        shmseg: 9,
        offset: 10,
    };
    let requests = vec![
        query_version_request(LE, 1),
        attach_request(LE, 1, 2, 3, true),
        detach_request(LE, 1, 2),
        put_image_request(LE, 1, &put),
        get_image_request(LE, 1, &get),
        create_pixmap_request(LE, 1, 2, 3, 4, 5, 6, 7, 8),
        attach_fd_request(LE, 1, 2, false),
        create_segment_request(LE, 1, 2, 3, true),
    ];
    let lengths: Vec<usize> = requests.iter().map(|r| r.len()).collect();
    assert_eq!(lengths, vec![4, 16, 8, 40, 32, 28, 12, 16]);
    for (minor, r) in requests.iter().enumerate() {
        assert_eq!(r.len() % 4, 0);
        assert_eq!(r[0], 1);
        assert_eq!(r[1] as usize, minor);
        assert_eq!(u16::from_le_bytes([r[2], r[3]]) as usize, r.len() / 4);
    }
}

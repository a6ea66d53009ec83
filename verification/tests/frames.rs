use transport_amqp::error::Part;
use transport_amqp::frame::{
    encode, read, Frame, Progress, Reader, Reading, Writer, CLASS_BASIC, CLASS_CONNECTION,
    FRAME_END, FRAME_MAX, PROTOCOL_HEADER,
};
use transport_amqp::Error;

#[test]
fn frames_round_trip() {
    let mut arguments = Writer::new();
    arguments
        .short(0)
        .shortstr("orders")
        .bit(true)
        .bit(false)
        .bit(true)
        .table(&[("x-key", "value")]);
    let frames = [
        Frame::method(1, CLASS_BASIC, 40, arguments.finish()),
        Frame::Header {
            channel: 1,
            class: CLASS_BASIC,
            body_size: 3,
        },
        Frame::Body {
            channel: 1,
            bytes: vec![1, 2, 3],
        },
        Frame::Heartbeat,
    ];
    let mut wire = Vec::new();
    for frame in &frames {
        wire.extend(encode(frame));
    }
    let mut reader = wire.as_slice();
    for frame in &frames {
        assert_eq!(read(&mut reader).expect("read").as_ref(), Some(frame));
    }
    assert!(read(&mut reader).expect("closed").is_none());
    let Frame::Method { arguments, .. } = &frames[0] else {
        panic!("method");
    };
    let mut args = Reader::new(arguments);
    assert_eq!(args.short().expect("short"), 0);
    assert_eq!(args.shortstr().expect("str"), "orders");
    assert!(args.bit().expect("bit"));
    assert!(!args.bit().expect("bit"));
    assert!(args.bit().expect("bit"));
    args.table().expect("table");
    assert!(args.rest().is_empty());
    assert!(args.octet().is_err(), "past the end");
}

#[test]
fn what_is_not_a_frame_is_refused() {
    assert!(
        read(&mut &[9u8, 0, 0, 0, 0, 0, 0, FRAME_END][..]).is_err(),
        "type 9"
    );
    assert!(
        read(&mut &[1u8, 0, 0, 0, 0, 0, 0, 0][..]).is_err(),
        "no frame end"
    );
    assert!(read(&mut &[1u8, 0, 0][..]).is_err(), "cut off");
    assert_eq!(encode(&Frame::Heartbeat), [8, 0, 0, 0, 0, 0, 0, FRAME_END]);
}

#[test]
fn the_protocol_header_and_the_frame_size_are_as_agreed() {
    assert_eq!(&PROTOCOL_HEADER, b"AMQP\x00\x00\x09\x01");
    assert_eq!(FRAME_MAX, 131_072);
}

#[test]
fn each_kind_of_frame_has_its_octets() {
    assert_eq!(
        encode(&Frame::method(0, CLASS_CONNECTION, 51, vec![0xaa])),
        [1, 0, 0, 0, 0, 0, 5, 0, 10, 0, 51, 0xaa, FRAME_END]
    );
    assert_eq!(
        encode(&Frame::Header {
            channel: 0x0102,
            class: CLASS_BASIC,
            body_size: 0x0304,
        }),
        [
            2, 1, 2, 0, 0, 0, 14, 0, 60, 0, 0, 0, 0, 0, 0, 0, 0, 3, 4, 0, 0, FRAME_END
        ]
    );
    assert_eq!(
        encode(&Frame::Body {
            channel: 1,
            bytes: vec![7, 8],
        }),
        [3, 0, 1, 0, 0, 0, 2, 7, 8, FRAME_END]
    );
}

#[test]
fn a_frame_that_breaks_off_says_where() {
    let whole = encode(&Frame::method(1, CLASS_BASIC, 80, vec![1, 2]));
    for cut in 1..whole.len() {
        let part = if cut < 7 {
            Part::Header
        } else if cut < whole.len() - 1 {
            Part::Payload
        } else {
            Part::End
        };
        let mut reader = &whole[..cut];
        assert_eq!(read(&mut reader), Err(Error::BrokeOff { part }), "{cut}");
        assert!(reader.is_empty());
    }
}

#[test]
fn an_unknown_type_is_named_and_the_rest_is_left() {
    let mut reader = &b"220 mail\r\n"[..];
    assert_eq!(
        read(&mut reader),
        Err(Error::UnknownFrameType { kind: b'2' })
    );
    assert_eq!(reader, &b"20 mail\r\n"[..]);
}

#[test]
fn a_payload_too_short_for_its_type_is_refused() {
    let mut method = &[1u8, 0, 0, 0, 0, 0, 3, 0, 10, 0, FRAME_END][..];
    assert_eq!(read(&mut method), Err(Error::ArgumentPastFrame));
    let mut header = &[2u8, 0, 0, 0, 0, 0, 4, 0, 60, 0, 0, FRAME_END][..];
    assert_eq!(read(&mut header), Err(Error::ArgumentPastFrame));
    let mut unclosed = &[3u8, 0, 1, 0, 0, 0, 1, 5, 0][..];
    assert_eq!(read(&mut unclosed), Err(Error::UnclosedFrame));
}

#[test]
fn what_a_heartbeat_carries_is_passed_over() {
    let mut reader = &[8u8, 0, 3, 0, 0, 0, 2, 1, 2, FRAME_END, 9][..];
    assert_eq!(read(&mut reader), Ok(Some(Frame::Heartbeat)));
    assert_eq!(reader, &[9u8][..]);
}

#[test]
fn a_frame_is_read_part_by_part() {
    let frame = Frame::method(1, CLASS_BASIC, 80, vec![1, 2]);
    let wire = encode(&frame);
    let mut at = 0;
    let mut sizes = Vec::new();
    let mut reading = Reading::Kind;
    let read = loop {
        let wanted = reading.wanted() as usize;
        sizes.push(wanted);
        let octets = wire[at..at + wanted].to_vec();
        at += wanted;
        match reading.supply(octets) {
            Ok(Progress::More(next)) => reading = next,
            Ok(Progress::Whole(frame)) => break frame,
            Err(error) => panic!("{error:?}"),
        }
    };
    assert_eq!(read, frame);
    assert_eq!(sizes, [1, 6, 6, 1]);
    assert_eq!(at, wire.len());
}

#[test]
fn a_frame_describes_itself() {
    assert_eq!(
        Frame::method(1, 60, 40, vec![1, 255]).describe(),
        format!("{:?}", Frame::method(1, 60, 40, vec![1, 255]))
    );
    let header = Frame::Header {
        channel: 2,
        class: 60,
        body_size: 1_234_567_890_123,
    };
    assert_eq!(header.describe(), format!("{header:?}"));
    let body = Frame::Body {
        channel: 0,
        bytes: Vec::new(),
    };
    assert_eq!(body.describe(), format!("{body:?}"));
    assert_eq!(Frame::Heartbeat.describe(), "Heartbeat");
}

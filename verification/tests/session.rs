use transport_amqp::client::close_ok;
use transport_amqp::frame::{Reader, Writer, CLASS_BASIC, CLASS_CONNECTION, PROTOCOL_HEADER};
use transport_amqp::method::Awaited;
use transport_amqp::session::{expect, user_named};
use transport_amqp::{Accepting, Error, Event, Frame, Opening, Outcome, Session, Step};

fn method(channel: u16, class: u16, method: u16, arguments: &mut Writer) -> Frame {
    let arguments = std::mem::take(arguments);
    Frame::method(channel, class, method, arguments.finish())
}

fn error<T>(step: Step<T>) -> Error {
    match step.outcome {
        Outcome::Failed(error) => error,
        _ => panic!("no failure"),
    }
}

fn value<T>(step: Step<T>) -> T {
    match step.outcome {
        Outcome::Done(value) => value,
        _ => panic!("not done"),
    }
}

fn waits<T>(step: &Step<T>) -> bool {
    matches!(step.outcome, Outcome::Waiting)
}

fn start_ok(response: &[u8]) -> Frame {
    method(
        0,
        CLASS_CONNECTION,
        11,
        Writer::new()
            .table(&[("product", "test")])
            .shortstr("PLAIN")
            .longstr(response)
            .shortstr("en_US"),
    )
}

fn accepting() -> Accepting {
    match Session::accept("peer:1", &PROTOCOL_HEADER) {
        Opening::Accepted { accepting, .. } => accepting,
        Opening::Refused { .. } => panic!("refused"),
    }
}

fn session(response: &[u8]) -> Session {
    let mut accepting = accepting();
    assert!(waits(&accepting.handle(Some(start_ok(response)))));
    let tune_ok = Frame::method(0, CLASS_CONNECTION, 31, Vec::new());
    assert!(waits(&accepting.handle(Some(tune_ok))));
    let open = Frame::method(0, CLASS_CONNECTION, 40, Vec::new());
    value(accepting.handle(Some(open)))
}

#[test]
fn a_session_opens_with_its_mechanisms() {
    let Opening::Accepted { start, .. } = Session::accept("peer:1", &PROTOCOL_HEADER) else {
        panic!("refused");
    };
    assert_eq!(
        start,
        method(
            0,
            CLASS_CONNECTION,
            10,
            Writer::new()
                .octet(0)
                .octet(9)
                .table(&[("product", "xmip")])
                .longstr(b"PLAIN")
                .longstr(b"en_US"),
        )
    );
}

#[test]
fn a_header_that_differs_anywhere_is_refused() {
    for i in 0..8 {
        let mut header = PROTOCOL_HEADER;
        header[i] ^= 1;
        let Opening::Refused { answer, error } = Session::accept("peer:1", &header) else {
            panic!("accepted");
        };
        assert_eq!(answer, PROTOCOL_HEADER);
        assert_eq!(error, Error::NotAmqp);
    }
}

#[test]
fn a_session_proposes_one_channel_and_opens() {
    let mut accepting = accepting();
    let step = accepting.handle(Some(start_ok(b"\0ada\0secret")));
    assert!(waits(&step));
    assert_eq!(
        step.send,
        [method(
            0,
            CLASS_CONNECTION,
            30,
            Writer::new().short(1).long(131_072).short(0),
        )]
    );
    let step = accepting.handle(Some(Frame::method(0, CLASS_CONNECTION, 31, Vec::new())));
    assert!(waits(&step) && step.send.is_empty());
    let step = accepting.handle(Some(Frame::method(0, CLASS_CONNECTION, 40, Vec::new())));
    assert_eq!(
        step.send,
        [method(0, CLASS_CONNECTION, 41, Writer::new().shortstr(""))]
    );
    assert_eq!(value(step).user(), "ada");
}

#[test]
fn the_user_stands_between_the_first_two_nuls() {
    assert_eq!(user_named("\0ada\0secret"), "ada");
    assert_eq!(user_named("admin\0ada\0secret"), "ada");
    assert_eq!(user_named("\0ada"), "ada");
    assert_eq!(user_named("\0\0"), "");
    assert_eq!(user_named("ada"), "");
    assert_eq!(user_named(""), "");
    assert_eq!(session(b"\0ad\xffa\0").user(), "ad\u{fffd}a");
    assert_eq!(session(b"\0\xc3\xa5sa\0").user(), "åsa");
}

#[test]
fn a_session_takes_nothing_but_the_method_whose_turn_it_is() {
    let awaited = Awaited::ConnectionStartOk;
    let early = Frame::method(0, CLASS_CONNECTION, 40, vec![1]);
    let refused = accepting().handle(Some(early.clone()));
    assert!(refused.send.is_empty());
    let refused = error(refused);
    assert_eq!(
        refused,
        Error::UnexpectedFrame {
            frame: early,
            awaited,
        }
    );
    assert_eq!(
        refused.message(),
        "Method { channel: 0, class: 10, method: 40, arguments: [1] } where connection.start-ok was expected"
    );
    assert_eq!(
        error(accepting().handle(Some(Frame::Heartbeat))),
        Error::UnexpectedFrame {
            frame: Frame::Heartbeat,
            awaited,
        }
    );
    assert_eq!(
        error(accepting().handle(None)),
        Error::ClientClosed { awaited }
    );
    let cut = Frame::method(0, CLASS_CONNECTION, 11, vec![0]);
    assert_eq!(
        error(accepting().handle(Some(cut))),
        Error::ArgumentPastFrame
    );
    assert_eq!(
        expect(awaited, Some(start_ok(b""))).map(|arguments| arguments.len()),
        Ok(4 + 17 + 6 + 4 + 6)
    );
}

#[test]
fn channels_are_opened_and_closed_where_they_are() {
    let mut session = session(b"\0a\0b");
    let step = session.next_event(Some(Frame::method(7, 20, 10, vec![0])));
    assert!(waits(&step));
    assert_eq!(step.send, [Frame::method(7, 20, 11, vec![0, 0, 0, 0])]);
    let step = session.next_event(Some(Frame::method(7, 20, 40, Vec::new())));
    assert!(waits(&step));
    assert_eq!(step.send, [Frame::method(7, 20, 41, Vec::new())]);
    let step = session.next_event(Some(Frame::Heartbeat));
    assert!(waits(&step));
    assert_eq!(step.send, [Frame::Heartbeat]);
    let step = session.next_event(Some(Frame::Body {
        channel: 1,
        bytes: vec![1],
    }));
    assert!(waits(&step) && step.send.is_empty());
}

#[test]
fn a_declaration_is_reported_and_answered() {
    let mut session = session(b"\0a\0b");
    let declare = method(3, 50, 10, Writer::new().short(0).shortstr("orders"));
    let step = session.next_event(Some(declare));
    assert_eq!(
        step.send,
        [method(
            3,
            50,
            11,
            Writer::new().shortstr("orders").long(0).long(0),
        )]
    );
    assert_eq!(value(step), Some(Event::Declared("orders".to_string())));
    let cut = Frame::method(3, 50, 10, vec![0]);
    assert_eq!(
        error(session.next_event(Some(cut))),
        Error::ArgumentPastFrame
    );
}

#[test]
fn a_consumer_has_the_tag_it_asked_for() {
    let mut session = session(b"\0a\0b");
    assert_eq!(session.deliver("k", b"x"), Err(Error::NoConsumer));
    assert_eq!(session.deliveries(), 0);
    let consume = method(
        1,
        CLASS_BASIC,
        20,
        Writer::new().short(0).shortstr("q").shortstr("mine"),
    );
    let step = session.next_event(Some(consume));
    assert_eq!(
        step.send,
        [method(1, CLASS_BASIC, 21, Writer::new().shortstr("mine"))]
    );
    assert_eq!(value(step), Some(Event::Consuming("q".to_string())));
    let frames = session.deliver("k", b"xyz").expect("frames");
    assert_eq!(session.deliveries(), 1);
    assert_eq!(
        frames,
        [
            method(
                1,
                CLASS_BASIC,
                60,
                Writer::new()
                    .shortstr("mine")
                    .longlong(1)
                    .bit(false)
                    .shortstr("")
                    .shortstr("k"),
            ),
            Frame::Header {
                channel: 1,
                class: CLASS_BASIC,
                body_size: 3,
            },
            Frame::Body {
                channel: 1,
                bytes: b"xyz".to_vec(),
            },
        ]
    );
    let unnamed = method(
        1,
        CLASS_BASIC,
        20,
        Writer::new().short(0).shortstr("q").shortstr(""),
    );
    let step = session.next_event(Some(unnamed));
    assert_eq!(
        step.send,
        [method(1, CLASS_BASIC, 21, Writer::new().shortstr("xmip.1"))]
    );
}

fn publish() -> Frame {
    method(
        1,
        CLASS_BASIC,
        40,
        Writer::new()
            .short(0)
            .shortstr("ex")
            .shortstr("rk")
            .bit(false),
    )
}

fn header(body_size: u64) -> Frame {
    Frame::Header {
        channel: 1,
        class: CLASS_BASIC,
        body_size,
    }
}

#[test]
fn a_publish_is_reported_once_it_is_whole() {
    let mut session = session(b"\0a\0b");
    for frame in [publish(), header(4)] {
        let step = session.next_event(Some(frame));
        assert!(waits(&step) && step.send.is_empty());
    }
    let step = session.next_event(Some(Frame::Body {
        channel: 1,
        bytes: b"abcde".to_vec(),
    }));
    assert!(step.send.is_empty());
    let Some(Event::Published(arrived)) = value(step) else {
        panic!("no publish");
    };
    assert_eq!(arrived.bytes, b"abcde", "a frame is taken whole");
    assert_eq!(arrived.origin_uri, "amqp://peer:1/ex/rk");
}

#[test]
fn a_publish_that_breaks_off_fails_and_is_forgotten() {
    let mut session = session(b"\0a\0b");
    assert!(waits(&session.next_event(Some(publish()))));
    assert_eq!(
        error(session.next_event(Some(Frame::Heartbeat))),
        Error::PublishWithoutHeader
    );
    assert!(waits(&session.next_event(Some(publish()))));
    assert_eq!(
        error(session.next_event(None)),
        Error::PublishWithoutHeader
    );
    assert!(waits(&session.next_event(Some(publish()))));
    assert!(waits(&session.next_event(Some(header(1)))));
    assert_eq!(
        error(session.next_event(Some(publish()))),
        Error::BodyBrokeOff
    );
    assert!(value(session.next_event(None)).is_none());
}

#[test]
fn what_is_not_served_is_refused() {
    let mut session = session(b"\0a\0b");
    let step = session.next_event(Some(Frame::method(1, 90, 10, Vec::new())));
    assert!(step.send.is_empty());
    assert_eq!(
        error(step),
        Error::NotServed {
            class: 90,
            method: 10,
        }
    );
    let ack = method(1, CLASS_BASIC, 80, Writer::new().longlong(1).bit(false));
    let step = session.next_event(Some(ack));
    assert!(waits(&step) && step.send.is_empty());
    let step = session.next_event(Some(Frame::method(9, CLASS_CONNECTION, 50, Vec::new())));
    assert_eq!(step.send, [close_ok()]);
    assert_eq!(value(step), None);
}

#[test]
fn other_events_are_answered_on_the_way_to_a_publish() {
    let mut session = session(b"\0a\0b");
    let declare = method(1, 50, 10, Writer::new().short(0).shortstr("orders"));
    let step = session.next_publish(Some(declare));
    assert!(waits(&step));
    assert_eq!(step.send.len(), 1);
    assert!(waits(&session.next_publish(Some(publish()))));
    let arrived = value(session.next_publish(Some(header(0)))).expect("one");
    assert!(arrived.bytes.is_empty());
    assert!(value(session.next_publish(None)).is_none());
}

#[test]
fn what_is_half_received_is_given_up_when_reading_fails() {
    let mut session = session(b"\0a\0b");
    assert!(waits(&session.next_event(Some(publish()))));
    session.abandon();
    let step = session.next_event(Some(header(0)));
    assert!(waits(&step) && step.send.is_empty());
    assert!(waits(&session.next_event(Some(publish()))));
    assert!(waits(&session.next_event(Some(header(3)))));
    session.abandon();
    let step = session.next_event(Some(Frame::Heartbeat));
    assert!(waits(&step));
    assert_eq!(step.send, [Frame::Heartbeat]);
}

fn consume(tag: &str) -> Frame {
    method(
        1,
        CLASS_BASIC,
        20,
        Writer::new().short(0).shortstr("q").shortstr(tag),
    )
}

fn delivered_to(session: &mut Session) -> Result<Frame, Error> {
    session.deliver("k", b"").map(|frames| frames[0].clone())
}

#[test]
fn a_consumer_that_could_not_be_confirmed_is_taken_back() {
    let mut session = session(b"\0a\0b");
    value(session.next_event(Some(consume("first"))));
    session.take_back();
    assert_eq!(delivered_to(&mut session), Err(Error::NoConsumer));
    value(session.next_event(Some(consume("first"))));
    let first = delivered_to(&mut session);
    assert!(first.is_ok());
    session.take_back();
    assert!(delivered_to(&mut session).is_ok(), "it was confirmed");
    value(session.next_event(Some(consume("second"))));
    session.take_back();
    let Ok(Frame::Method { arguments, .. }) = delivered_to(&mut session) else {
        panic!("no consumer");
    };
    assert_eq!(Reader::new(&arguments).shortstr(), Ok("first".to_string()));
    value(session.next_event(Some(consume("third"))));
    assert!(waits(&session.next_event(Some(Frame::Heartbeat))));
    session.take_back();
    let Ok(Frame::Method { arguments, .. }) = delivered_to(&mut session) else {
        panic!("no consumer");
    };
    assert_eq!(Reader::new(&arguments).shortstr(), Ok("third".to_string()));
}

#[test]
fn frames_in_passing_change_nothing_but_their_answer() {
    let passing = [
        Frame::Heartbeat,
        method(1, CLASS_BASIC, 80, Writer::new().longlong(1).bit(false)),
        Frame::method(5, 20, 10, vec![0]),
        Frame::method(5, 20, 40, Vec::new()),
    ];
    for frame in passing {
        let mut session = session(b"\0a\0b");
        assert!(waits(&session.next_event(Some(frame))));
        assert!(waits(&session.next_event(Some(publish()))));
        let Some(Event::Published(arrived)) = value(session.next_event(Some(header(0)))) else {
            panic!("no publish");
        };
        assert_eq!(arrived.origin_uri, "amqp://peer:1/ex/rk");
    }
}

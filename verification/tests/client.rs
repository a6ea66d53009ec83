use transport_amqp::client::{close_ok, expect};
use transport_amqp::frame::{Reader, Writer, CLASS_BASIC, CLASS_CONNECTION, PROTOCOL_HEADER};
use transport_amqp::method::Awaited;
use transport_amqp::{Client, Connecting, Error, Frame, Login, Outcome, Step};

fn login() -> Login {
    Login {
        user: "ada".to_string(),
        password: "secret".to_string(),
        virtual_host: "/xmip".to_string(),
    }
}

fn method(channel: u16, class: u16, method: u16, arguments: &mut Writer) -> Frame {
    let arguments = std::mem::take(arguments);
    Frame::method(channel, class, method, arguments.finish())
}

fn start() -> Frame {
    Frame::method(0, CLASS_CONNECTION, 10, vec![0, 9])
}

fn tune(frame_max: u32) -> Frame {
    method(
        0,
        CLASS_CONNECTION,
        30,
        Writer::new().short(2047).long(frame_max).short(60),
    )
}

fn error<T>(step: Step<T>) -> Error {
    match step.outcome {
        Outcome::Failed(error) => error,
        _ => panic!("no failure"),
    }
}

fn value<T>(step: Step<T>) -> T {
    match step.outcome {
        Outcome::Done(value) => value,
        _ => panic!("not done"),
    }
}

fn waits<T>(step: &Step<T>) -> bool {
    matches!(step.outcome, Outcome::Waiting)
}

fn connecting() -> Connecting {
    let (connecting, header) = Client::connect("broker:5672", &login());
    assert_eq!(header, PROTOCOL_HEADER);
    connecting
}

fn client(frame_max: u32) -> Client {
    let mut connecting = connecting();
    assert!(waits(&connecting.handle(Some(start()))));
    assert!(waits(&connecting.handle(Some(tune(frame_max)))));
    let open_ok = Frame::method(0, CLASS_CONNECTION, 41, vec![0]);
    assert!(waits(&connecting.handle(Some(open_ok))));
    let channel_open_ok = Frame::method(1, 20, 11, vec![0, 0, 0, 0]);
    value(connecting.handle(Some(channel_open_ok)))
}

#[test]
fn the_default_login_is_the_guest() {
    let login = Login::default();
    assert_eq!(login.user, "guest");
    assert_eq!(login.password, "guest");
    assert_eq!(login.virtual_host, "/");
}

#[test]
fn a_client_presents_its_login_and_opens_its_virtual_host() {
    let mut connecting = connecting();
    let step = connecting.handle(Some(start()));
    assert!(waits(&step));
    assert_eq!(
        step.send,
        [method(
            0,
            CLASS_CONNECTION,
            11,
            Writer::new()
                .table(&[("product", "xmip")])
                .shortstr("PLAIN")
                .longstr(b"\0ada\0secret")
                .shortstr("en_US"),
        )]
    );
    let step = connecting.handle(Some(tune(4096)));
    assert!(waits(&step));
    assert_eq!(
        step.send,
        [
            method(
                0,
                CLASS_CONNECTION,
                31,
                Writer::new().short(2047).long(4096).short(0),
            ),
            method(
                0,
                CLASS_CONNECTION,
                40,
                Writer::new().shortstr("/xmip").shortstr("").bit(false),
            ),
        ]
    );
    let step = connecting.handle(Some(Frame::method(0, CLASS_CONNECTION, 41, vec![0])));
    assert!(waits(&step));
    assert_eq!(
        step.send,
        [method(1, 20, 10, Writer::new().shortstr(""))]
    );
}

#[test]
fn the_frame_size_is_the_smaller_of_the_two() {
    assert_eq!(client(0).frame_max(), 131_072);
    assert_eq!(client(131_073).frame_max(), 131_072);
    assert_eq!(client(131_072).frame_max(), 131_072);
    assert_eq!(client(4096).frame_max(), 4096);
    assert_eq!(client(1).frame_max(), 1);
}

#[test]
fn a_tune_that_breaks_off_fails() {
    let mut connecting = connecting();
    assert!(waits(&connecting.handle(Some(start()))));
    let cut = Frame::method(0, CLASS_CONNECTION, 30, vec![0, 1, 0, 2]);
    let step = connecting.handle(Some(cut));
    assert!(step.send.is_empty());
    assert_eq!(error(step), Error::ArgumentPastFrame);
}

#[test]
fn a_refused_login_is_told_and_answered() {
    let mut connecting = connecting();
    assert!(waits(&connecting.handle(Some(start()))));
    let close = method(
        0,
        CLASS_CONNECTION,
        50,
        Writer::new()
            .short(403)
            .shortstr("ACCESS_REFUSED")
            .short(0)
            .short(0),
    );
    let step = connecting.handle(Some(close));
    assert_eq!(step.send, [close_ok()]);
    assert_eq!(
        error(step),
        Error::BrokerRefused {
            awaited: Awaited::ConnectionTune,
            code: 403,
            text: "ACCESS_REFUSED".to_string(),
        }
    );
}

#[test]
fn other_frames_are_passed_over_while_a_method_is_awaited() {
    let awaited = Awaited::ChannelOpenOk;
    let step = expect(awaited, Some(Frame::Heartbeat));
    assert!(waits(&step));
    assert_eq!(step.send, [Frame::Heartbeat]);
    let step = expect(awaited, Some(Frame::method(2, 20, 11, Vec::new())));
    assert!(waits(&step) && step.send.is_empty());
    let body = Frame::Body {
        channel: 1,
        bytes: vec![1],
    };
    let step = expect(awaited, Some(body));
    assert!(waits(&step) && step.send.is_empty());
    let step = expect(awaited, Some(Frame::method(1, 20, 11, vec![7])));
    assert_eq!(value(step), [7]);
    assert_eq!(
        error(expect(awaited, None)),
        Error::BrokerClosed { awaited }
    );
    let cut = Frame::method(0, CLASS_CONNECTION, 50, vec![1]);
    let step = expect(awaited, Some(cut));
    assert!(step.send.is_empty());
    assert_eq!(error(step), Error::ArgumentPastFrame);
}

#[test]
fn a_queue_is_declared_durable() {
    let client = client(0);
    assert_eq!(
        client.declare_queue("orders"),
        Frame::method(
            1,
            50,
            10,
            vec![0, 0, 6, b'o', b'r', b'd', b'e', b'r', b's', 0b10, 0, 0, 0, 0],
        )
    );
    let ok = method(
        1,
        50,
        11,
        Writer::new().shortstr("orders").long(12).long(3),
    );
    assert_eq!(value(client.queue_declared(Some(ok))), 12);
    let cut = method(1, 50, 11, Writer::new().shortstr("orders").short(1));
    assert_eq!(
        error(client.queue_declared(Some(cut))),
        Error::ArgumentPastFrame
    );
}

#[test]
fn a_consumer_asks_for_no_tag() {
    let mut client = client(0);
    assert_eq!(
        client.consume("q"),
        Frame::method(1, 60, 20, vec![0, 0, 1, b'q', 0, 0, 0, 0, 0, 0])
    );
    let step = client.consuming(Some(Frame::method(1, 60, 21, Vec::new())));
    assert_eq!(error(step), Error::ArgumentPastFrame);
    let ok = method(1, 60, 21, Writer::new().shortstr("ctag-1"));
    value(client.consuming(Some(ok)));
}

#[test]
fn a_body_is_split_at_the_frame_size() {
    let client = client(12);
    let frames = client.publish("ex", "rk", &[1, 2, 3, 4, 5, 6, 7, 8, 9]);
    assert_eq!(
        frames[0],
        Frame::method(
            1,
            60,
            40,
            vec![0, 0, 2, b'e', b'x', 2, b'r', b'k', 0],
        )
    );
    assert_eq!(
        frames[1],
        Frame::Header {
            channel: 1,
            class: CLASS_BASIC,
            body_size: 9,
        }
    );
    let bodies: Vec<Vec<u8>> = frames[2..]
        .iter()
        .map(|frame| match frame {
            Frame::Body { channel: 1, bytes } => bytes.clone(),
            _ => panic!("no body"),
        })
        .collect();
    assert_eq!(
        bodies,
        [vec![1, 2, 3, 4], vec![5, 6, 7, 8], vec![9]]
    );
}

fn deliver() -> Frame {
    method(
        1,
        CLASS_BASIC,
        60,
        Writer::new()
            .shortstr("ctag-1")
            .longlong(41)
            .bit(true)
            .shortstr("ex")
            .shortstr("rk"),
    )
}

fn header(body_size: u64) -> Frame {
    Frame::Header {
        channel: 1,
        class: CLASS_BASIC,
        body_size,
    }
}

fn body(bytes: &[u8]) -> Frame {
    Frame::Body {
        channel: 1,
        bytes: bytes.to_vec(),
    }
}

#[test]
fn a_delivery_is_acknowledged_once_it_is_whole() {
    let mut client = client(0);
    for frame in [deliver(), header(3), body(b"ab")] {
        let step = client.next_delivery(Some(frame));
        assert!(waits(&step) && step.send.is_empty());
    }
    let step = client.next_delivery(Some(body(b"c")));
    assert_eq!(
        step.send,
        [method(
            1,
            CLASS_BASIC,
            80,
            Writer::new().longlong(41).bit(false),
        )]
    );
    let arrived = value(step).expect("one");
    assert_eq!(arrived.bytes, b"abc");
    assert_eq!(
        arrived.origin_uri,
        "amqp://broker:5672/ex/rk?delivery-tag=41"
    );
}

#[test]
fn a_delivery_that_breaks_off_fails_and_is_forgotten() {
    let mut client = client(0);
    assert!(waits(&client.next_delivery(Some(deliver()))));
    assert_eq!(
        error(client.next_delivery(Some(body(b"ab")))),
        Error::DeliveryWithoutHeader
    );
    assert!(waits(&client.next_delivery(Some(deliver()))));
    assert!(waits(&client.next_delivery(Some(header(3)))));
    assert_eq!(
        error(client.next_delivery(Some(Frame::Heartbeat))),
        Error::BodyBrokeOff
    );
    assert!(waits(&client.next_delivery(Some(deliver()))));
    assert!(waits(&client.next_delivery(Some(header(3)))));
    assert_eq!(error(client.next_delivery(None)), Error::BodyBrokeOff);
    let cut = method(1, CLASS_BASIC, 60, Writer::new().shortstr("ctag-1"));
    assert_eq!(
        error(client.next_delivery(Some(cut))),
        Error::ArgumentPastFrame
    );
    assert!(value(client.next_delivery(None)).is_none());
}

#[test]
fn a_broker_that_closes_ends_the_deliveries() {
    let mut client = client(0);
    let step = client.next_delivery(Some(Frame::Heartbeat));
    assert!(waits(&step));
    assert_eq!(step.send, [Frame::Heartbeat]);
    let step = client.next_delivery(Some(body(b"stray")));
    assert!(waits(&step) && step.send.is_empty());
    let close = Frame::method(0, CLASS_CONNECTION, 50, Vec::new());
    let step = client.next_delivery(Some(close));
    assert_eq!(step.send, [close_ok()]);
    assert!(value(step).is_none());
}

#[test]
fn a_goodbye_says_that_all_is_well() {
    let client = client(0);
    let Frame::Method { arguments, .. } = client.close() else {
        panic!("method");
    };
    let mut fields = Reader::new(&arguments);
    assert_eq!(fields.short(), Ok(200));
    assert_eq!(fields.shortstr(), Ok("bye".to_string()));
    assert_eq!(fields.long(), Ok(0));
    assert!(fields.rest().is_empty());
    value(client.closing(Some(close_ok())));
    assert_eq!(
        error(client.closing(None)),
        Error::BrokerClosed {
            awaited: Awaited::ConnectionCloseOk,
        }
    );
}

#[test]
fn a_delivery_is_given_up_when_reading_fails() {
    let mut client = client(0);
    assert!(waits(&client.next_delivery(Some(deliver()))));
    assert!(waits(&client.next_delivery(Some(header(3)))));
    client.abandon();
    let step = client.next_delivery(Some(Frame::Heartbeat));
    assert!(waits(&step));
    assert_eq!(step.send, [Frame::Heartbeat]);
    let step = client.next_delivery(Some(body(b"abc")));
    assert!(waits(&step) && step.send.is_empty());
}

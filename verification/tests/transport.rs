use std::time::Duration;

use transport_amqp::text::{put_decimal, read_text, split_once, strip_prefix};
use transport_amqp::{
    AmqpTransport, Arrived, Connecting, Directions, Error, Frame, Login, Outcome, Receiving,
    Verdict,
};

fn node() -> AmqpTransport {
    AmqpTransport::new("broker:5672", "orders", "order.placed", "orders.in")
}

#[test]
fn a_target_names_the_broker_the_exchange_and_the_key() {
    let node = node();
    assert_eq!(
        node.resolve("amqp://host:1/ex/routing.key"),
        ("host:1", "ex", "routing.key")
    );
    assert_eq!(
        node.resolve("amqp://host:1/ex/a/b"),
        ("host:1", "ex", "a/b")
    );
    assert_eq!(
        node.resolve("amqp://host:1/ex/"),
        ("host:1", "ex", "order.placed")
    );
    assert_eq!(node.resolve("amqp://host:1/key"), ("host:1", "", "key"));
    assert_eq!(
        node.resolve("amqp://host:1"),
        ("host:1", "", "order.placed")
    );
    assert_eq!(node.resolve("amqp://"), ("", "", "order.placed"));
}

#[test]
fn any_other_target_is_a_key() {
    let node = node();
    assert_eq!(node.resolve("key"), ("broker:5672", "orders", "key"));
    assert_eq!(node.resolve("a/b"), ("broker:5672", "orders", "a/b"));
    assert_eq!(node.resolve(""), ("broker:5672", "orders", ""));
    assert_eq!(
        node.resolve("AMQP://x"),
        ("broker:5672", "orders", "AMQP://x")
    );
}

#[test]
fn a_transport_is_what_it_was_made_of() {
    let transport = node();
    assert_eq!(transport.broker(), "broker:5672");
    assert_eq!(transport.queue(), "orders.in");
    assert_eq!(transport.timeout(), None);
    assert_eq!(transport.name(), "amqp");
    assert_eq!(transport.directions(), Directions::Both);
    let transport = transport.timing_out_after(Duration::from_secs(3));
    assert_eq!(transport.timeout(), Some(Duration::from_secs(3)));
    assert_eq!(transport.broker(), "broker:5672");
}

fn presented(begun: (Connecting, [u8; 8])) -> Vec<u8> {
    let (mut connecting, _) = begun;
    let start = Frame::method(0, 10, 10, Vec::new());
    let step = connecting.handle(Some(start));
    assert!(matches!(step.outcome, Outcome::Waiting));
    match step.send.first() {
        Some(Frame::Method { arguments, .. }) => arguments.clone(),
        _ => panic!("no answer"),
    }
}

#[test]
fn a_transport_presents_the_login_it_was_given() {
    let holds = |octets: &[u8], part: &[u8]| octets.windows(part.len()).any(|w| w == part);
    assert!(holds(&presented(node().connect()), b"\0guest\0guest"));
    let login = Login {
        user: "ada".to_string(),
        password: "secret".to_string(),
        virtual_host: "/".to_string(),
    };
    let transport = node().logging_in(login);
    assert!(holds(&presented(transport.connect()), b"\0ada\0secret"));
    assert!(holds(
        &presented(transport.connect_to("elsewhere")),
        b"\0ada\0secret"
    ));
}

fn message(bytes: &[u8]) -> Arrived {
    Arrived {
        origin_uri: "amqp://broker/e/k".to_string(),
        bytes: bytes.to_vec(),
    }
}

#[test]
fn receiving_ends_when_the_broker_closes_or_is_quiet() {
    let quiet = Error::Quiet {
        message: "timed out".to_string(),
    };
    let mut receiving = Receiving::new();
    assert_eq!(receiving.take(Err(quiet.clone())), Verdict::Enough);
    assert!(receiving.arrived().is_empty(), "nothing was delivered");
    let mut receiving = Receiving::new();
    assert_eq!(receiving.take(Ok(Some(message(b"1")))), Verdict::More);
    assert_eq!(
        receiving.take(Err(Error::BodyBrokeOff)),
        Verdict::Failed(Error::BodyBrokeOff)
    );
    assert_eq!(receiving.take(Ok(Some(message(b"2")))), Verdict::More);
    assert_eq!(receiving.take(Err(quiet)), Verdict::Enough);
    assert_eq!(receiving.arrived(), [message(b"1"), message(b"2")]);
    let mut receiving = Receiving::new();
    assert_eq!(receiving.take(Ok(None)), Verdict::Enough);
    assert!(receiving.arrived().is_empty());
}

#[test]
fn a_broken_stream_ends_receiving_once_something_has_arrived() {
    let broken = Error::Stream {
        message: "reset".to_string(),
        retryable: true,
    };
    let lost = Error::Stream {
        message: "denied".to_string(),
        retryable: false,
    };
    let mut receiving = Receiving::new();
    assert_eq!(
        receiving.take(Err(broken.clone())),
        Verdict::Failed(broken.clone()),
        "nothing has arrived"
    );
    assert_eq!(receiving.take(Ok(Some(message(b"1")))), Verdict::More);
    assert_eq!(
        receiving.take(Err(lost.clone())),
        Verdict::Failed(lost)
    );
    assert_eq!(receiving.take(Err(broken)), Verdict::Enough);
    assert_eq!(receiving.arrived(), [message(b"1")]);
}

#[test]
fn a_long_text_is_parted_in_one_walk() {
    let long = "x".repeat(2_000_000);
    assert_eq!(split_once(&long, '/'), None);
    let joined = format!("{long}/y");
    assert_eq!(split_once(&joined, '/'), Some((long.as_str(), "y")));
}

#[test]
fn text_is_parted_stripped_and_spelled() {
    assert_eq!(split_once("a/b/c", '/'), Some(("a", "b/c")));
    assert_eq!(split_once("å/ö", '/'), Some(("å", "ö")));
    assert_eq!(split_once("abc", '/'), None);
    assert_eq!(strip_prefix("amqp://x", "amqp://"), Some("x"));
    assert_eq!(strip_prefix("amqp:/", "amqp://"), None);
    assert_eq!(strip_prefix("amqps//x", "amqp://"), None);
    for value in [0, 9, 10, 1_234_567_890, u64::MAX] {
        let mut text = String::from("n=");
        put_decimal(&mut text, value);
        assert_eq!(text, format!("n={value}"));
    }
    assert_eq!(read_text("åäö".as_bytes()), "åäö");
    assert_eq!(read_text(&[b'a', 0xff, 0xfe, b'b']), "a\u{fffd}\u{fffd}b");
}

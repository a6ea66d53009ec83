use std::time::Duration;

use transport_amqp::frame::{encode, read, FRAME_MAX, PROTOCOL_HEADER};
use transport_amqp::{
    AmqpTransport, Arrived, Client, Connecting, Error, Event, Frame, Opening, Outcome, Receiving,
    Session, Step, Verdict,
};

const PEER: &str = "127.0.0.1:40000";

fn node() -> AmqpTransport {
    AmqpTransport::new("127.0.0.1:0", "orders", "order.placed", "orders.in")
        .timing_out_after(Duration::from_secs(2))
}

/// One direction of a stream between two peers.
struct Wire {
    octets: Vec<u8>,
    largest: usize,
}

impl Wire {
    fn new() -> Self {
        Wire {
            octets: Vec::new(),
            largest: 0,
        }
    }

    fn send(&mut self, frames: &[Frame]) {
        for frame in frames {
            let octets = encode(frame);
            self.largest = self.largest.max(octets.len());
            self.octets.extend(octets);
        }
    }

    fn receive(&mut self) -> Option<Frame> {
        let mut reader = self.octets.as_slice();
        let frame = read(&mut reader).expect("a frame");
        self.octets = reader.to_vec();
        frame
    }
}

/// Two peers, and what is under way between them.
struct Link {
    client: Client,
    session: Session,
    to_session: Wire,
    to_client: Wire,
}

fn done<T>(step: Step<T>, back: &mut Wire) -> Option<T> {
    back.send(&step.send);
    match step.outcome {
        Outcome::Done(value) => Some(value),
        Outcome::Waiting => None,
        Outcome::Failed(error) => panic!("{}", error.message()),
    }
}

fn link(near: (Connecting, [u8; 8]), far: &AmqpTransport) -> Link {
    let (mut connecting, header) = near;
    let mut to_session = Wire::new();
    let mut to_client = Wire::new();
    let Opening::Accepted {
        mut accepting,
        start,
    } = far.accept_one(PEER, &header)
    else {
        panic!("refused");
    };
    to_client.send(&[start]);
    let mut session = None;
    loop {
        let frame = to_client.receive();
        if let Some(client) = done(connecting.handle(frame), &mut to_session) {
            return Link {
                client,
                session: session.expect("a session"),
                to_session,
                to_client,
            };
        }
        while !to_session.octets.is_empty() {
            let frame = to_session.receive();
            match &mut session {
                None => session = done(accepting.handle(frame), &mut to_client),
                Some(session) => {
                    let event = done(session.next_event(frame), &mut to_client);
                    assert!(event.is_none());
                }
            }
        }
    }
}

impl Link {
    fn next_event(&mut self) -> Option<Event> {
        loop {
            let frame = self.to_session.receive();
            if let Some(event) = done(self.session.next_event(frame), &mut self.to_client) {
                return event;
            }
        }
    }

    fn next_publish(&mut self) -> Option<Arrived> {
        loop {
            let frame = self.to_session.receive();
            if let Some(arrived) = done(self.session.next_publish(frame), &mut self.to_client) {
                return arrived;
            }
        }
    }

    fn next_delivery(&mut self) -> Option<Arrived> {
        loop {
            let frame = self.to_client.receive();
            if let Some(arrived) = done(self.client.next_delivery(frame), &mut self.to_session) {
                return arrived;
            }
        }
    }
}

fn send(near: &AmqpTransport, target: &str, bytes: &[u8], far: &AmqpTransport) -> Link {
    let (broker, exchange, key) = near.resolve(target);
    let mut link = link(near.connect_to(broker), far);
    link.to_session
        .send(&link.client.publish(exchange, key, bytes));
    link.to_session.send(&[link.client.close()]);
    link
}

#[test]
fn a_client_publishes_to_a_session_in_frames() {
    let far_end = node();
    let address = "127.0.0.1:5672";
    let long = vec![0x2a; 300_000];
    let near = AmqpTransport::new(address, "orders", "order.placed", "q")
        .timing_out_after(Duration::from_secs(2));
    let mut link = send(&near, "order.placed", b"first", &far_end);
    assert_eq!(link.session.user(), "guest");
    let first = link.next_publish().expect("one");
    assert_eq!(first.bytes, b"first");
    assert!(first.origin_uri.ends_with("/orders/order.placed"));
    assert!(link.next_publish().is_none());
    let mut link = send(
        &near,
        &format!("amqp://{address}/other/key.two"),
        &long,
        &far_end,
    );
    let second = link.next_publish().expect("one");
    assert_eq!(second.bytes, long, "three frames, one body");
    assert!(second.origin_uri.ends_with("/other/key.two"));
    assert!(link.next_publish().is_none());
    assert_eq!(link.to_session.largest, FRAME_MAX as usize);
    let answer = link.to_client.receive();
    assert!(matches!(
        link.client.closing(answer).outcome,
        Outcome::Done(())
    ));
}

#[test]
fn a_session_delivers_to_a_consumer_and_is_acknowledged() {
    let far_end = node().timing_out_after(Duration::from_secs(6));
    let near = AmqpTransport::new("127.0.0.1:5672", "orders", "order.placed", "orders.in")
        .timing_out_after(Duration::from_secs(2));
    let mut link = link(near.connect(), &far_end);
    link.to_session
        .send(&[link.client.declare_queue(near.queue())]);
    assert_eq!(
        link.next_event(),
        Some(Event::Declared("orders.in".into()))
    );
    let answer = link.to_client.receive();
    assert!(matches!(
        link.client.queue_declared(answer).outcome,
        Outcome::Done(0)
    ));
    link.to_session.send(&[link.client.consume(near.queue())]);
    assert_eq!(
        link.next_event(),
        Some(Event::Consuming("orders.in".into()))
    );
    let answer = link.to_client.receive();
    assert!(matches!(
        link.client.consuming(answer).outcome,
        Outcome::Done(())
    ));
    for body in [b"one", b"two"] {
        let frames = link.session.deliver("order.placed", body).expect("frames");
        link.to_client.send(&frames);
    }
    assert_eq!(link.session.deliveries(), 2);
    let mut receiving = Receiving::new();
    for _ in 0..2 {
        let delivery = link.next_delivery();
        assert_eq!(receiving.take(Ok(delivery)), Verdict::More);
    }
    let quiet = Error::Quiet {
        message: "nothing for two seconds".into(),
    };
    assert_eq!(receiving.take(Err(quiet)), Verdict::Enough);
    link.to_session.send(&[link.client.close()]);
    // Two acknowledgements, then the client's close.
    assert!(link.next_event().is_none());
    let arrived = receiving.arrived();
    assert_eq!(arrived.len(), 2);
    assert_eq!(arrived[0].bytes, b"one");
    assert_eq!(
        arrived[0].origin_uri,
        "amqp://127.0.0.1:5672//order.placed?delivery-tag=1"
    );
    assert!(arrived[1]
        .origin_uri
        .ends_with("/order.placed?delivery-tag=2"));
}

#[test]
fn a_peer_that_does_not_speak_amqp_is_refused() {
    let (mut connecting, header) = AmqpTransport::new("127.0.0.1:25", "e", "k", "q").connect();
    assert_eq!(header, PROTOCOL_HEADER);
    let mut greeting = &b"220 mail\r\n"[..];
    let Err(error) = read(&mut greeting) else {
        panic!("connected");
    };
    assert!(!error.retryable(), "{}", error.message());
    assert!(matches!(
        connecting.handle(None).outcome,
        Outcome::Failed(_)
    ));
    let Opening::Refused { answer, error } = node().accept_one(PEER, b"GET / HT") else {
        panic!("accepted");
    };
    assert_eq!(answer, PROTOCOL_HEADER);
    assert_eq!(error, Error::NotAmqp);
}

#[test]
fn an_empty_body_is_one_message_too() {
    let near = node();
    let mut link = send(&near, "key", b"", &node());
    let arrived = link.next_publish().expect("one");
    assert!(arrived.bytes.is_empty());
    assert_eq!(arrived.origin_uri, format!("amqp://{PEER}/orders/key"));
    assert!(link.next_publish().is_none());
}

#[test]
fn a_body_as_long_as_a_frame_carries_is_not_split() {
    let near = node();
    let whole = FRAME_MAX as usize - 8;
    for (length, frames) in [(whole, 3), (whole + 1, 4), (2 * whole, 4), (0, 2)] {
        let link = link(near.connect(), &node());
        assert_eq!(link.client.frame_max(), FRAME_MAX as usize);
        let published = link.client.publish("e", "k", &vec![1; length]);
        assert_eq!(published.len(), frames, "{length}");
    }
}

#[test]
fn where_a_message_came_from_is_a_target() {
    let near = node();
    let mut link = send(&near, "order.placed", b"x", &node());
    let arrived = link.next_publish().expect("one");
    assert_eq!(
        near.resolve(&arrived.origin_uri),
        (PEER, "orders", "order.placed")
    );
}

#[test]
fn names_too_long_for_a_short_string_arrive_cut() {
    let near = node();
    let long = "k".repeat(300);
    let mut link = send(&near, &long, b"x", &node());
    let arrived = link.next_publish().expect("one");
    assert_eq!(
        arrived.origin_uri,
        format!("amqp://{PEER}/orders/{}", "k".repeat(255))
    );
}

#[test]
fn messages_are_reported_once_and_in_their_order() {
    let near = node();
    let mut link = link(near.connect(), &node());
    for body in [&b"one"[..], b"", b"three"] {
        link.to_session
            .send(&link.client.publish("orders", "key", body));
    }
    for body in [&b"one"[..], b"", b"three"] {
        assert_eq!(link.next_publish().expect("one").bytes, body);
    }
    assert!(link.next_publish().is_none());
    assert!(link.to_client.octets.is_empty());
}

use transport_amqp::error::Part;
use transport_amqp::method::Awaited;
use transport_amqp::{Error, Frame};

#[test]
fn every_error_says_what_went_wrong() {
    let cases = [
        (
            Error::UnknownFrameType { kind: 50 },
            "frame type 50 does not exist; the peer does not speak AMQP",
        ),
        (
            Error::BrokeOff {
                part: Part::Payload,
            },
            "reading a frame payload: the input ends within the frame",
        ),
        (Error::UnclosedFrame, "a frame not closed by the frame end"),
        (
            Error::ArgumentPastFrame,
            "an argument that runs past the frame",
        ),
        (Error::NotAmqp, "the client did not open with AMQP 0-9-1"),
        (
            Error::NotServed {
                class: 90,
                method: 10,
            },
            "method 90.10 is not served here",
        ),
        (Error::NoConsumer, "no consumer to deliver to"),
        (
            Error::DeliveryWithoutHeader,
            "a delivery without its content header",
        ),
        (
            Error::PublishWithoutHeader,
            "a publish without its content header",
        ),
        (Error::BodyBrokeOff, "a body that broke off"),
        (
            Error::UnexpectedFrame {
                frame: Frame::Heartbeat,
                awaited: Awaited::ConnectionOpen,
            },
            "Heartbeat where connection.open was expected",
        ),
        (
            Error::ClientClosed {
                awaited: Awaited::ConnectionStartOk,
            },
            "the client closed before connection.start-ok",
        ),
        (
            Error::BrokerClosed {
                awaited: Awaited::QueueDeclareOk,
            },
            "the broker closed before queue.declare-ok",
        ),
        (
            Error::BrokerRefused {
                awaited: Awaited::ConnectionTune,
                code: 403,
                text: "ACCESS_REFUSED".to_string(),
            },
            "the broker closed while connection.tune was awaited: 403 ACCESS_REFUSED",
        ),
    ];
    for (error, message) in cases {
        assert_eq!(error.message(), message);
        assert!(!error.retryable(), "{message}");
    }
}

#[test]
fn only_a_quiet_peer_or_a_stream_may_recover() {
    let quiet = Error::Quiet {
        message: "timed out".to_string(),
    };
    assert!(quiet.retryable() && quiet.quiet());
    assert_eq!(quiet.message(), "timed out");
    let broken = Error::Stream {
        message: "reset".to_string(),
        retryable: true,
    };
    assert!(broken.retryable() && !broken.quiet());
    assert_eq!(broken.message(), "reset");
    let gone = Error::Stream {
        message: "refused".to_string(),
        retryable: false,
    };
    assert!(!gone.retryable());
}

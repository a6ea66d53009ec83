//! What can go wrong, and what is said of it.
use vstd::prelude::*;

use crate::frame::{self, Frame, FrameView};
use crate::method::Awaited;
use crate::text::{self, put_decimal};

verus! {

/// The part of a frame that was being read.
#[derive(Clone, Copy, Debug, PartialEq, Eq)]
pub enum Part {
    Header,
    Payload,
    End,
}

/// What can go wrong with a peer.
#[derive(Clone, Debug, PartialEq, Eq)]
pub enum Error {
    /// A frame starts with a type that AMQP does not have.
    UnknownFrameType { kind: u8 },
    /// The input ends within a frame.
    BrokeOff { part: Part },
    /// The octet after a payload is not the frame end.
    UnclosedFrame,
    /// Arguments are shorter than what is read of them.
    ArgumentPastFrame,
    /// A client did not open with the protocol header.
    NotAmqp,
    /// A client called a method that a session does not serve.
    NotServed { class: u16, method: u16 },
    /// There is no consumer to deliver to.
    NoConsumer,
    /// A delivery is not followed by its content header.
    DeliveryWithoutHeader,
    /// A publish is not followed by its content header.
    PublishWithoutHeader,
    /// Something other than a body frame came before a body was whole.
    BodyBrokeOff,
    /// A client sent something else than the method whose turn it was.
    UnexpectedFrame { frame: Frame, awaited: Awaited },
    /// A client closed instead of sending a method.
    ClientClosed { awaited: Awaited },
    /// A broker closed the stream instead of sending a method.
    BrokerClosed { awaited: Awaited },
    /// A broker closed the connection instead of sending a method, and said why.
    BrokerRefused { awaited: Awaited, code: u16, text: String },
    /// The peer sent nothing for as long as it is waited for.
    Quiet { message: String },
    /// The stream under the connection failed.
    Stream { message: String, retryable: bool },
}

/// What went wrong.
pub enum ErrorView {
    UnknownFrameType { kind: u8 },
    BrokeOff { part: Part },
    UnclosedFrame,
    ArgumentPastFrame,
    NotAmqp,
    NotServed { class: u16, method: u16 },
    NoConsumer,
    DeliveryWithoutHeader,
    PublishWithoutHeader,
    BodyBrokeOff,
    UnexpectedFrame { frame: FrameView, awaited: Awaited },
    ClientClosed { awaited: Awaited },
    BrokerClosed { awaited: Awaited },
    BrokerRefused { awaited: Awaited, code: u16, text: Seq<char> },
    Quiet { message: Seq<char> },
    Stream { message: Seq<char>, retryable: bool },
}

impl DeepView for Error {
    type V = ErrorView;

    open spec fn deep_view(&self) -> ErrorView {
        match self {
            Error::UnknownFrameType { kind } => ErrorView::UnknownFrameType { kind: *kind },
            Error::BrokeOff { part } => ErrorView::BrokeOff { part: *part },
            Error::UnclosedFrame => ErrorView::UnclosedFrame,
            Error::ArgumentPastFrame => ErrorView::ArgumentPastFrame,
            Error::NotAmqp => ErrorView::NotAmqp,
            Error::NotServed { class, method } => ErrorView::NotServed {
                class: *class,
                method: *method,
            },
            Error::NoConsumer => ErrorView::NoConsumer,
            Error::DeliveryWithoutHeader => ErrorView::DeliveryWithoutHeader,
            Error::PublishWithoutHeader => ErrorView::PublishWithoutHeader,
            Error::BodyBrokeOff => ErrorView::BodyBrokeOff,
            Error::UnexpectedFrame { frame, awaited } => ErrorView::UnexpectedFrame {
                frame: frame.deep_view(),
                awaited: *awaited,
            },
            Error::ClientClosed { awaited } => ErrorView::ClientClosed { awaited: *awaited },
            Error::BrokerClosed { awaited } => ErrorView::BrokerClosed { awaited: *awaited },
            Error::BrokerRefused { awaited, code, text } => ErrorView::BrokerRefused {
                awaited: *awaited,
                code: *code,
                text: text@,
            },
            Error::Quiet { message } => ErrorView::Quiet { message: message@ },
            Error::Stream { message, retryable } => ErrorView::Stream {
                message: message@,
                retryable: *retryable,
            },
        }
    }
}

impl Part {
    /// What was being read, in words.
    pub open spec fn words(self) -> Seq<char> {
        match self {
            Part::Header => "reading a frame header"@,
            Part::Payload => "reading a frame payload"@,
            Part::End => "reading the frame end"@,
        }
    }

    /// What was being read, in words.
    pub fn doing(&self) -> (words: &'static str)
        ensures
            words@ == self.words(),
    {
        match self {
            Part::Header => "reading a frame header",
            Part::Payload => "reading a frame payload",
            Part::End => "reading the frame end",
        }
    }
}

/// What is said of an error.
pub open spec fn message_of(error: ErrorView) -> Seq<char> {
    match error {
        ErrorView::UnknownFrameType { kind } => "frame type "@ + text::decimal(kind as nat)
            + " does not exist; the peer does not speak AMQP"@,
        ErrorView::BrokeOff { part } => part.words() + ": the input ends within the frame"@,
        ErrorView::UnclosedFrame => "a frame not closed by the frame end"@,
        ErrorView::ArgumentPastFrame => "an argument that runs past the frame"@,
        ErrorView::NotAmqp => "the client did not open with AMQP 0-9-1"@,
        ErrorView::NotServed { class, method } => "method "@ + text::decimal(class as nat) + "."@
            + text::decimal(method as nat) + " is not served here"@,
        ErrorView::NoConsumer => "no consumer to deliver to"@,
        ErrorView::DeliveryWithoutHeader => "a delivery without its content header"@,
        ErrorView::PublishWithoutHeader => "a publish without its content header"@,
        ErrorView::BodyBrokeOff => "a body that broke off"@,
        ErrorView::UnexpectedFrame { frame, awaited } => frame::described(frame) + " where "@
            + awaited.name() + " was expected"@,
        ErrorView::ClientClosed { awaited } => "the client closed before "@ + awaited.name(),
        ErrorView::BrokerClosed { awaited } => "the broker closed before "@ + awaited.name(),
        ErrorView::BrokerRefused { awaited, code, text } => "the broker closed while "@
            + awaited.name() + " was awaited: "@ + text::decimal(code as nat) + " "@ + text,
        ErrorView::Quiet { message } => message,
        ErrorView::Stream { message, retryable } => message,
    }
}

/// Whether the same may go well another time: a quiet peer may speak and a
/// stream may recover, what breaks the protocol does not pass.
pub open spec fn may_pass(error: ErrorView) -> bool {
    match error {
        ErrorView::Quiet { .. } => true,
        ErrorView::Stream { retryable, .. } => retryable,
        _ => false,
    }
}

impl Error {
    /// What is said of this error.
    #[must_use]
    pub fn message(&self) -> (text: String)
        ensures
            text@ == message_of(self.deep_view()),
    {
        let mut text = String::new();
        match self {
            Error::UnknownFrameType { kind } => {
                text.append("frame type ");
                put_decimal(&mut text, *kind as u64);
                text.append(" does not exist; the peer does not speak AMQP");
            },
            Error::BrokeOff { part } => {
                text.append(part.doing());
                text.append(": the input ends within the frame");
            },
            Error::UnclosedFrame => {
                text.append("a frame not closed by the frame end");
            },
            Error::ArgumentPastFrame => {
                text.append("an argument that runs past the frame");
            },
            Error::NotAmqp => {
                text.append("the client did not open with AMQP 0-9-1");
            },
            Error::NotServed { class, method } => {
                text.append("method ");
                put_decimal(&mut text, *class as u64);
                text.append(".");
                put_decimal(&mut text, *method as u64);
                text.append(" is not served here");
            },
            Error::NoConsumer => {
                text.append("no consumer to deliver to");
            },
            Error::DeliveryWithoutHeader => {
                text.append("a delivery without its content header");
            },
            Error::PublishWithoutHeader => {
                text.append("a publish without its content header");
            },
            Error::BodyBrokeOff => {
                text.append("a body that broke off");
            },
            Error::UnexpectedFrame { frame, awaited } => {
                text.append(frame.describe().as_str());
                text.append(" where ");
                text.append(awaited.what());
                text.append(" was expected");
            },
            Error::ClientClosed { awaited } => {
                text.append("the client closed before ");
                text.append(awaited.what());
            },
            Error::BrokerClosed { awaited } => {
                text.append("the broker closed before ");
                text.append(awaited.what());
            },
            Error::BrokerRefused { awaited, code, text: said } => {
                text.append("the broker closed while ");
                text.append(awaited.what());
                text.append(" was awaited: ");
                put_decimal(&mut text, *code as u64);
                text.append(" ");
                text.append(said.as_str());
            },
            Error::Quiet { message } => {
                text.append(message.as_str());
            },
            Error::Stream { message, .. } => {
                text.append(message.as_str());
            },
        }
        text
    }

    /// Whether the same may go well another time.
    #[must_use]
    pub fn retryable(&self) -> (retryable: bool)
        ensures
            retryable == may_pass(self.deep_view()),
    {
        match self {
            Error::Quiet { .. } => true,
            Error::Stream { retryable, .. } => *retryable,
            _ => false,
        }
    }

    /// Whether the peer was quiet.
    #[must_use]
    pub fn quiet(&self) -> (quiet: bool)
        ensures
            quiet == (self is Quiet),
    {
        match self {
            Error::Quiet { .. } => true,
            _ => false,
        }
    }
}

/// A quiet peer may speak another time, a stream may recover where it says so,
/// and nothing else passes.
pub proof fn only_quiet_and_streams_pass(error: ErrorView)
    ensures
        may_pass(error) <==> (error is Quiet || (error matches ErrorView::Stream {
            retryable,
            ..
        } && retryable)),
{
}

/// What is said of an error names what it is about: the type, the method, the
/// frame, what was awaited, and what the broker or the stream said, as they
/// are.
pub proof fn messages_name_what_they_are_about(
    kind: u8,
    class: u16,
    method: u16,
    code: u16,
    frame: FrameView,
    awaited: Awaited,
    said: Seq<char>,
    retryable: bool,
)
    ensures
        message_of(ErrorView::UnknownFrameType { kind }) == "frame type "@ + text::decimal(
            kind as nat,
        ) + " does not exist; the peer does not speak AMQP"@,
        message_of(ErrorView::NotServed { class, method }) == "method "@ + text::decimal(
            class as nat,
        ) + "."@ + text::decimal(method as nat) + " is not served here"@,
        message_of(ErrorView::UnexpectedFrame { frame, awaited }) == frame::described(frame)
            + " where "@ + awaited.name() + " was expected"@,
        message_of(ErrorView::ClientClosed { awaited }) == "the client closed before "@
            + awaited.name(),
        message_of(ErrorView::BrokerClosed { awaited }) == "the broker closed before "@
            + awaited.name(),
        message_of(ErrorView::BrokerRefused { awaited, code, text: said })
            == "the broker closed while "@ + awaited.name() + " was awaited: "@ + text::decimal(
            code as nat,
        ) + " "@ + said,
        message_of(ErrorView::BrokeOff { part: Part::Header })
            == "reading a frame header"@ + ": the input ends within the frame"@,
        message_of(ErrorView::BrokeOff { part: Part::Payload })
            == "reading a frame payload"@ + ": the input ends within the frame"@,
        message_of(ErrorView::BrokeOff { part: Part::End })
            == "reading the frame end"@ + ": the input ends within the frame"@,
        message_of(ErrorView::UnclosedFrame) == "a frame not closed by the frame end"@,
        message_of(ErrorView::ArgumentPastFrame) == "an argument that runs past the frame"@,
        message_of(ErrorView::NotAmqp) == "the client did not open with AMQP 0-9-1"@,
        message_of(ErrorView::NoConsumer) == "no consumer to deliver to"@,
        message_of(ErrorView::DeliveryWithoutHeader) == "a delivery without its content header"@,
        message_of(ErrorView::PublishWithoutHeader) == "a publish without its content header"@,
        message_of(ErrorView::BodyBrokeOff) == "a body that broke off"@,
        message_of(ErrorView::Quiet { message: said }) == said,
        message_of(ErrorView::Stream { message: said, retryable }) == said,
{
}

} // verus!

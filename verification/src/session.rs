//! The broker's side of one connection: what a Receive Location that
//! accepts publishers directly runs, and what a test puts at the far end.
//!
//! Not a broker. One session serves one client over one channel with no
//! exchange, no bindings and no queue store: what is published is handed up
//! as a Stream, what is given is delivered to the one consumer. A Location
//! that needs routing, persistence and fan-out talks to a broker through
//! [`crate::Client`].
//!
//! Nothing here touches a stream. A call is given each frame that is read,
//! `None` where the client closed, and says what to send.
use vstd::prelude::*;
use vstd::string::*;
use vstd::utf8::*;

use crate::arguments;
use crate::client;
use crate::content::{
    self, put_content, Arrived, ArrivedView, Gathered, GatheredView, Incoming, IncomingView,
};
use crate::error::{Error, ErrorView};
use crate::frame::{
    Frame, FrameView, Reader, Writer, CLASS_BASIC, CLASS_CHANNEL, CLASS_CONNECTION, CLASS_QUEUE,
    FRAME_MAX, PROTOCOL_HEADER,
};
use crate::method::Awaited;
use crate::octets;
use crate::step::{Outcome, OutcomeView, Step, StepView};
use crate::text::{self, read_text, split_once};

verus! {

/// What the client did, as [`Session::next_event`] reports it.
#[derive(Clone, Debug, PartialEq, Eq)]
pub enum Event {
    /// The client published; here is the Stream.
    Published(Arrived),
    /// The client declared this queue.
    Declared(String),
    /// The client started consuming this queue.
    Consuming(String),
}

/// What the client did.
pub enum EventView {
    Published(ArrivedView),
    Declared(Seq<char>),
    Consuming(Seq<char>),
}

impl DeepView for Event {
    type V = EventView;

    open spec fn deep_view(&self) -> EventView {
        match self {
            Event::Published(arrived) => EventView::Published(arrived.deep_view()),
            Event::Declared(queue) => EventView::Declared(queue@),
            Event::Consuming(queue) => EventView::Consuming(queue@),
        }
    }
}

/// connection.start: the protocol's version, the session's properties, the
/// mechanisms and the locales.
pub open spec fn start_frame() -> FrameView {
    FrameView::Method {
        channel: 0,
        class: CLASS_CONNECTION,
        method: 10,
        arguments: seq![0u8, 9u8] + client::own_properties() + arguments::long_string(
            encode_utf8("PLAIN"@),
        ) + arguments::long_string(encode_utf8("en_US"@)),
    }
}

/// connection.tune: one channel, the frame size, and no heartbeat.
pub open spec fn tune_frame() -> FrameView {
    FrameView::Method {
        channel: 0,
        class: CLASS_CONNECTION,
        method: 30,
        arguments: octets::big_endian(1, 2) + octets::big_endian(FRAME_MAX as nat, 4)
            + octets::big_endian(0, 2),
    }
}

/// connection.open-ok: one reserved argument.
pub open spec fn open_ok_frame() -> FrameView {
    FrameView::Method {
        channel: 0,
        class: CLASS_CONNECTION,
        method: 41,
        arguments: arguments::short_string(""@),
    }
}

/// channel.open-ok: one reserved argument.
pub open spec fn channel_open_ok_frame(channel: u16) -> FrameView {
    FrameView::Method {
        channel,
        class: CLASS_CHANNEL,
        method: 11,
        arguments: arguments::long_string(Seq::empty()),
    }
}

/// channel.close-ok.
pub open spec fn channel_close_ok_frame(channel: u16) -> FrameView {
    FrameView::Method { channel, class: CLASS_CHANNEL, method: 41, arguments: Seq::empty() }
}

/// queue.declare-ok: the queue, with no messages and no consumers.
pub open spec fn declare_ok_frame(channel: u16, queue: Seq<char>) -> FrameView {
    FrameView::Method {
        channel,
        class: CLASS_QUEUE,
        method: 11,
        arguments: arguments::short_string(queue) + octets::big_endian(0, 4) + octets::big_endian(
            0,
            4,
        ),
    }
}

/// basic.consume-ok: the consumer's tag.
pub open spec fn consume_ok_frame(channel: u16, tag: Seq<char>) -> FrameView {
    FrameView::Method {
        channel,
        class: CLASS_BASIC,
        method: 21,
        arguments: arguments::short_string(tag),
    }
}

/// basic.deliver: the consumer's tag, the delivery's, not delivered before, no
/// exchange, and the routing key.
pub open spec fn deliver_frame(
    tag: Seq<char>,
    delivery_tag: u64,
    routing_key: Seq<char>,
) -> FrameView {
    FrameView::Method {
        channel: 1,
        class: CLASS_BASIC,
        method: 60,
        arguments: arguments::short_string(tag) + octets::big_endian(delivery_tag as nat, 8)
            + arguments::packed(seq![false]) + arguments::short_string(""@)
            + arguments::short_string(routing_key),
    }
}

/// A delivery as it is sent: the method, the content header, and the body
/// split so that no frame of it exceeds the largest that is allowed.
pub open spec fn delivered(
    tag: Seq<char>,
    delivery_tag: u64,
    routing_key: Seq<char>,
    body: Seq<u8>,
) -> Seq<FrameView> {
    seq![deliver_frame(tag, delivery_tag, routing_key)] + content::content_frames(
        body,
        (FRAME_MAX - 8) as nat,
    )
}

/// connection.start.
fn start() -> (frame: Frame)
    ensures
        frame.deep_view() == start_frame(),
{
    let mut arguments = Writer::new();
    let product = [("product", "xmip")];
    let properties: &[(&str, &str)] = product.as_slice();
    assert(properties.deep_view() =~= seq![("product"@, "xmip"@)]);
    arguments.octet(0).octet(9).table(properties).longstr("PLAIN".as_bytes()).longstr(
        "en_US".as_bytes(),
    );
    let octets = arguments.finish();
    assert(octets@ =~= seq![0u8, 9u8] + client::own_properties() + arguments::long_string(
        encode_utf8("PLAIN"@),
    ) + arguments::long_string(encode_utf8("en_US"@)));
    Frame::method(0, CLASS_CONNECTION, 10, octets)
}

/// connection.tune.
fn tune() -> (frame: Frame)
    ensures
        frame.deep_view() == tune_frame(),
{
    let mut arguments = Writer::new();
    arguments.short(1).long(FRAME_MAX).short(0);
    let octets = arguments.finish();
    assert(octets@ =~= octets::big_endian(1, 2) + octets::big_endian(FRAME_MAX as nat, 4)
        + octets::big_endian(0, 2));
    Frame::method(0, CLASS_CONNECTION, 30, octets)
}

/// connection.open-ok.
fn open_ok() -> (frame: Frame)
    ensures
        frame.deep_view() == open_ok_frame(),
{
    let mut arguments = Writer::new();
    arguments.shortstr("");
    let octets = arguments.finish();
    assert(octets@ =~= arguments::short_string(""@));
    Frame::method(0, CLASS_CONNECTION, 41, octets)
}

/// channel.open-ok.
fn channel_open_ok(channel: u16) -> (frame: Frame)
    ensures
        frame.deep_view() == channel_open_ok_frame(channel),
{
    let mut arguments = Writer::new();
    let nothing: [u8; 0] = [];
    let empty: &[u8] = nothing.as_slice();
    assert(empty@ =~= Seq::empty());
    arguments.longstr(empty);
    let octets = arguments.finish();
    assert(octets@ =~= arguments::long_string(Seq::empty()));
    Frame::method(channel, CLASS_CHANNEL, 11, octets)
}

/// queue.declare-ok.
fn declare_ok(channel: u16, queue: &str) -> (frame: Frame)
    ensures
        frame.deep_view() == declare_ok_frame(channel, queue@),
{
    let mut arguments = Writer::new();
    arguments.shortstr(queue).long(0).long(0);
    let octets = arguments.finish();
    assert(octets@ =~= arguments::short_string(queue@) + octets::big_endian(0, 4)
        + octets::big_endian(0, 4));
    Frame::method(channel, CLASS_QUEUE, 11, octets)
}

/// basic.consume-ok.
fn consume_ok(channel: u16, tag: &str) -> (frame: Frame)
    ensures
        frame.deep_view() == consume_ok_frame(channel, tag@),
{
    let mut arguments = Writer::new();
    arguments.shortstr(tag);
    let octets = arguments.finish();
    assert(octets@ =~= arguments::short_string(tag@));
    Frame::method(channel, CLASS_BASIC, 21, octets)
}

/// basic.deliver.
fn deliver(tag: &str, delivery_tag: u64, routing_key: &str) -> (frame: Frame)
    ensures
        frame.deep_view() == deliver_frame(tag@, delivery_tag, routing_key@),
{
    let mut arguments = Writer::new();
    arguments.shortstr(tag).longlong(delivery_tag).bit(false).shortstr("").shortstr(routing_key);
    let octets = arguments.finish();
    proof {
        reveal_with_fuel(arguments::packed, 2);
        assert(octets@ =~= arguments::short_string(tag@) + octets::big_endian(
            delivery_tag as nat,
            8,
        ) + arguments::packed(seq![false]) + arguments::short_string(""@)
            + arguments::short_string(routing_key@));
    }
    Frame::method(1, CLASS_BASIC, 60, octets)
}

/// What a session makes of a frame when it is the turn of one method: only
/// that method will do.
pub open spec fn demanding(awaited: Awaited, frame: Option<FrameView>) -> Result<
    Seq<u8>,
    ErrorView,
> {
    match frame {
        Some(frame) => match frame {
            FrameView::Method { channel, class, method, arguments } if (channel, class, method)
                == awaited.address() => Ok(arguments),
            _ => Err(ErrorView::UnexpectedFrame { frame, awaited }),
        },
        None => Err(ErrorView::ClientClosed { awaited }),
    }
}

/// The arguments of `awaited`, which the frame must be.
pub fn expect(awaited: Awaited, frame: Option<Frame>) -> (arguments: Result<Vec<u8>, Error>)
    ensures
        match (demanding(awaited, frame.deep_view()), arguments) {
            (Ok(view), Ok(arguments)) => arguments@ == view,
            (Err(view), Err(error)) => error.deep_view() == view,
            _ => false,
        },
{
    match frame {
        Some(frame) => match frame {
            Frame::Method { channel, class, method, arguments } => {
                if awaited.has_address(channel, class, method) {
                    Ok(arguments)
                } else {
                    let frame = Frame::Method { channel, class, method, arguments };
                    Err(Error::UnexpectedFrame { frame, awaited })
                }
            },
            other => Err(Error::UnexpectedFrame { frame: other, awaited }),
        },
        None => Err(Error::ClientClosed { awaited }),
    }
}

/// Whom a PLAIN response names: what stands between its first NUL and its
/// second, or after the first where there is no second, and nobody where there
/// is none.
pub open spec fn user_in(response: Seq<char>) -> Seq<char> {
    match text::parted(response, '\0') {
        Some((_, rest)) => match text::parted(rest, '\0') {
            Some((user, _)) => user,
            None => rest,
        },
        None => ""@,
    }
}

/// Whom a PLAIN response names.
pub fn user_named(response: &str) -> (user: &str)
    ensures
        user@ == user_in(response@),
{
    match split_once(response, '\0') {
        Some((_, rest)) => match split_once(rest, '\0') {
            Some((user, _)) => user,
            None => rest,
        },
        None => "",
    }
}

/// The PLAIN response in a connection.start-ok: it comes after a table and the
/// mechanism.
pub open spec fn response_in(arguments: Seq<u8>) -> Option<Seq<char>> {
    match arguments::read_long_string(arguments) {
        Some((_, rest)) => match arguments::read_short_string(rest) {
            Some((_, rest)) => match arguments::read_long_string(rest) {
                Some((response, _)) => Some(text::utf8_text(response)),
                None => None,
            },
            None => None,
        },
        None => None,
    }
}

/// Read the PLAIN response in a connection.start-ok.
fn read_response(arguments: &[u8]) -> (response: Result<String, Error>)
    ensures
        match response_in(arguments@) {
            Some(view) => response matches Ok(response) && response@ == view,
            None => response == Err::<String, Error>(Error::ArgumentPastFrame),
        },
{
    let mut fields = Reader::new(arguments);
    fields.table()?;
    fields.shortstr()?;
    let response = fields.longstr()?;
    Ok(read_text(response))
}

/// How far a session's handshake has come.
#[derive(Clone, Copy, Debug, PartialEq, Eq)]
pub enum Stage {
    /// connection.start is sent, connection.start-ok is to come.
    StartOk,
    /// connection.tune is sent, connection.tune-ok is to come.
    TuneOk,
    /// connection.open is to come.
    Open,
}

impl Stage {
    /// The method that is to come.
    pub open spec fn next(self) -> Awaited {
        match self {
            Stage::StartOk => Awaited::ConnectionStartOk,
            Stage::TuneOk => Awaited::ConnectionTuneOk,
            Stage::Open => Awaited::ConnectionOpen,
        }
    }

    /// The method that is to come.
    fn awaited(&self) -> (awaited: Awaited)
        ensures
            awaited == self.next(),
    {
        match self {
            Stage::StartOk => Awaited::ConnectionStartOk,
            Stage::TuneOk => Awaited::ConnectionTuneOk,
            Stage::Open => Awaited::ConnectionOpen,
        }
    }
}

/// A session whose handshake is under way.
pub struct Accepting {
    peer: String,
    user: String,
    stage: Stage,
}

/// A session whose handshake is under way: the client's address, whom it
/// named, and how far it has come.
pub struct AcceptingView {
    pub peer: Seq<char>,
    pub user: Seq<char>,
    pub stage: Stage,
}

impl DeepView for Accepting {
    type V = AcceptingView;

    closed spec fn deep_view(&self) -> AcceptingView {
        AcceptingView { peer: self.peer@, user: self.user@, stage: self.stage }
    }
}

impl AcceptingView {
    /// The handshake right after the protocol header.
    pub open spec fn begun(peer: Seq<char>) -> AcceptingView {
        AcceptingView { peer, user: Seq::empty(), stage: Stage::StartOk }
    }

    /// The handshake once the method whose turn it was has come, and what is
    /// done about it.
    pub open spec fn on_method(self, arguments: Seq<u8>) -> (
        AcceptingView,
        StepView<SessionView>,
    ) {
        match self.stage {
            Stage::StartOk => match response_in(arguments) {
                Some(response) => (
                    AcceptingView {
                        peer: self.peer,
                        user: user_in(response),
                        stage: Stage::TuneOk,
                    },
                    StepView::answering(tune_frame()),
                ),
                None => (self, StepView::failed(ErrorView::ArgumentPastFrame)),
            },
            Stage::TuneOk => (
                AcceptingView { peer: self.peer, user: self.user, stage: Stage::Open },
                StepView::waiting(),
            ),
            Stage::Open => (
                self,
                StepView {
                    send: seq![open_ok_frame()],
                    outcome: OutcomeView::Done(SessionView::opened(self.peer, self.user)),
                },
            ),
        }
    }

    /// The handshake after a frame, `None` where the client closed, and what is
    /// done about it.
    pub open spec fn on_frame(self, frame: Option<FrameView>) -> (
        AcceptingView,
        StepView<SessionView>,
    ) {
        match demanding(self.stage.next(), frame) {
            Ok(arguments) => self.on_method(arguments),
            Err(error) => (self, StepView::failed(error)),
        }
    }
}

impl Accepting {
    /// Go on with the next frame, `None` where the client closed.
    pub fn handle(&mut self, frame: Option<Frame>) -> (step: Step<Session>)
        ensures
            (final(self).deep_view(), step.deep_view()) == old(self).deep_view().on_frame(
                frame.deep_view(),
            ),
    {
        let arguments = match expect(self.stage.awaited(), frame) {
            Ok(arguments) => arguments,
            Err(error) => return Step::failed(error),
        };
        match self.stage {
            Stage::StartOk => match read_response(&arguments) {
                Ok(response) => {
                    self.user = user_named(response.as_str()).to_string();
                    self.stage = Stage::TuneOk;
                    Step::sending(tune(), Outcome::Waiting)
                },
                Err(error) => Step::failed(error),
            },
            Stage::TuneOk => {
                self.stage = Stage::Open;
                Step::waiting()
            },
            Stage::Open => {
                let session = Session {
                    peer: self.peer.clone(),
                    user: self.user.clone(),
                    consumer_tag: None,
                    replaced: None,
                    delivery_tag: 0,
                    publish: None,
                };
                Step::sending(open_ok(), Outcome::Done(session))
            },
        }
    }
}

/// What becomes of a client that sent its first eight octets.
pub enum Opening {
    /// They are the protocol header: send this, and go on with the handshake.
    Accepted { accepting: Accepting, start: Frame },
    /// They are not: send the header that was expected, and fail.
    Refused { answer: [u8; 8], error: Error },
}

/// What becomes of a client at `peer` that sent `header`: the handshake begins
/// where that is the protocol header, and only there.
pub open spec fn opens(peer: Seq<char>, header: Seq<u8>, opening: Opening) -> bool {
    match opening {
        Opening::Accepted { accepting, start } => {
            &&& header == PROTOCOL_HEADER@
            &&& accepting.deep_view() == AcceptingView::begun(peer)
            &&& start.deep_view() == start_frame()
        },
        Opening::Refused { answer, error } => {
            &&& header != PROTOCOL_HEADER@
            &&& answer@ == PROTOCOL_HEADER@
            &&& error == Error::NotAmqp
        },
    }
}

/// A publish whose content is on its way.
struct Publish {
    exchange: String,
    routing_key: String,
    content: Incoming,
}

/// A publish whose content is on its way.
pub struct PublishView {
    pub exchange: Seq<char>,
    pub routing_key: Seq<char>,
    pub content: IncomingView,
}

impl DeepView for Publish {
    type V = PublishView;

    closed spec fn deep_view(&self) -> PublishView {
        PublishView {
            exchange: self.exchange@,
            routing_key: self.routing_key@,
            content: self.content.deep_view(),
        }
    }
}

/// One client's connection, from the broker's side.
pub struct Session {
    peer: String,
    user: String,
    consumer_tag: Option<String>,
    replaced: Option<Option<String>>,
    delivery_tag: u64,
    publish: Option<Publish>,
}

/// One client's connection, from the broker's side: the client's address, whom
/// it named, the tag of its consumer, what that tag replaced where the last
/// answer confirms it, the tag of the last delivery, and the publish whose
/// content is on its way.
pub struct SessionView {
    pub peer: Seq<char>,
    pub user: Seq<char>,
    pub consumer_tag: Option<Seq<char>>,
    pub replaced: Option<Option<Seq<char>>>,
    pub delivery_tag: u64,
    pub publish: Option<PublishView>,
}

impl DeepView for Session {
    type V = SessionView;

    closed spec fn deep_view(&self) -> SessionView {
        SessionView {
            peer: self.peer@,
            user: self.user@,
            consumer_tag: self.consumer_tag.deep_view(),
            replaced: self.replaced.deep_view(),
            delivery_tag: self.delivery_tag,
            publish: self.publish.deep_view(),
        }
    }
}

/// The queue that a queue.declare names.
pub open spec fn queue_in(arguments: Seq<u8>) -> Option<Seq<char>> {
    match arguments::read_number(arguments, 2) {
        Some((_, rest)) => match arguments::read_short_string(rest) {
            Some((queue, _)) => Some(queue),
            None => None,
        },
        None => None,
    }
}

/// Two short strings after a reserved number: the queue and the consumer's tag
/// of a basic.consume, the exchange and the routing key of a basic.publish.
pub open spec fn pair_in(arguments: Seq<u8>) -> Option<(Seq<char>, Seq<char>)> {
    match arguments::read_number(arguments, 2) {
        Some((_, rest)) => match arguments::read_short_string(rest) {
            Some((first, rest)) => match arguments::read_short_string(rest) {
                Some((second, _)) => Some((first, second)),
                None => None,
            },
            None => None,
        },
        None => None,
    }
}

/// The tag of a consumer: the one it asks for, or the session's own.
pub open spec fn tag_for(asked: Seq<char>) -> Seq<char> {
    if asked.len() == 0 {
        "xmip.1"@
    } else {
        asked
    }
}

/// Where a publish came from.
pub open spec fn publish_origin(peer: Seq<char>, publish: PublishView) -> Seq<char> {
    "amqp://"@ + peer + "/"@ + publish.exchange + "/"@ + publish.routing_key
}

impl SessionView {
    /// A session right after its handshake.
    pub open spec fn opened(peer: Seq<char>, user: Seq<char>) -> SessionView {
        SessionView {
            peer,
            user,
            consumer_tag: None,
            replaced: None,
            delivery_tag: 0,
            publish: None,
        }
    }

    /// The same session with another publish on its way.
    pub open spec fn expecting(self, publish: Option<PublishView>) -> SessionView {
        SessionView { publish, ..self }
    }

    /// The same session with a consumer that is about to be confirmed.
    pub open spec fn serving(self, tag: Seq<char>) -> SessionView {
        SessionView { consumer_tag: Some(tag), replaced: Some(self.consumer_tag), ..self }
    }

    /// The same session once its last answer is sent.
    pub open spec fn settled(self) -> SessionView {
        SessionView { replaced: None, ..self }
    }

    /// The same session where its last answer could not be sent: a consumer
    /// that was not confirmed is none, and the one before it is there again.
    pub open spec fn unanswered(self) -> SessionView {
        match self.replaced {
            Some(before) => SessionView { consumer_tag: before, replaced: None, ..self },
            None => self,
        }
    }

    /// The same session once it has delivered another message.
    pub open spec fn delivering(self) -> SessionView {
        SessionView {
            replaced: None,
            delivery_tag: (self.delivery_tag + 1) as u64,
            ..self
        }
    }

    /// The session after a method, and what it does about it.
    pub open spec fn on_method(
        self,
        channel: u16,
        class: u16,
        method: u16,
        arguments: Seq<u8>,
    ) -> (SessionView, StepView<Option<EventView>>) {
        if (class, method) == (CLASS_CHANNEL, 10u16) {
            (self, StepView::answering(channel_open_ok_frame(channel)))
        } else if (class, method) == (CLASS_CHANNEL, 40u16) {
            (self, StepView::answering(channel_close_ok_frame(channel)))
        } else if (class, method) == (CLASS_QUEUE, 10u16) {
            match queue_in(arguments) {
                Some(queue) => (
                    self,
                    StepView {
                        send: seq![declare_ok_frame(channel, queue)],
                        outcome: OutcomeView::Done(Some(EventView::Declared(queue))),
                    },
                ),
                None => (self, StepView::failed(ErrorView::ArgumentPastFrame)),
            }
        } else if (class, method) == (CLASS_BASIC, 20u16) {
            match pair_in(arguments) {
                Some((queue, asked)) => (
                    self.serving(tag_for(asked)),
                    StepView {
                        send: seq![consume_ok_frame(channel, tag_for(asked))],
                        outcome: OutcomeView::Done(Some(EventView::Consuming(queue))),
                    },
                ),
                None => (self, StepView::failed(ErrorView::ArgumentPastFrame)),
            }
        } else if (class, method) == (CLASS_BASIC, 40u16) {
            match pair_in(arguments) {
                Some((exchange, routing_key)) => (
                    self.expecting(
                        Some(
                            PublishView { exchange, routing_key, content: IncomingView::nothing() },
                        ),
                    ),
                    StepView::waiting(),
                ),
                None => (self, StepView::failed(ErrorView::ArgumentPastFrame)),
            }
        } else if (class, method) == (CLASS_BASIC, 80u16) {
            (self, StepView::waiting())
        } else if (class, method) == (CLASS_CONNECTION, 50u16) {
            (
                self,
                StepView {
                    send: seq![client::close_ok_frame()],
                    outcome: OutcomeView::Done(None),
                },
            )
        } else {
            (self, StepView::failed(ErrorView::NotServed { class, method }))
        }
    }

    /// The session between publishes, and what it does about a frame.
    pub open spec fn on_idle(self, frame: Option<FrameView>) -> (
        SessionView,
        StepView<Option<EventView>>,
    ) {
        match frame {
            None => (self, StepView::done(None)),
            Some(FrameView::Method { channel, class, method, arguments }) => self.on_method(
                channel,
                class,
                method,
                arguments,
            ),
            Some(FrameView::Heartbeat) => (self, StepView::answering(FrameView::Heartbeat)),
            Some(_) => (self, StepView::waiting()),
        }
    }

    /// The session with the content of `publish` on its way, and what it does
    /// about a frame.
    pub open spec fn on_content(self, publish: PublishView, frame: Option<FrameView>) -> (
        SessionView,
        StepView<Option<EventView>>,
    ) {
        match publish.content.gather(frame, ErrorView::PublishWithoutHeader) {
            GatheredView::More(content) => (
                self.expecting(
                    Some(
                        PublishView {
                            exchange: publish.exchange,
                            routing_key: publish.routing_key,
                            content,
                        },
                    ),
                ),
                StepView::waiting(),
            ),
            GatheredView::Whole(bytes) => (
                self.expecting(None),
                StepView::done(
                    Some(
                        EventView::Published(
                            ArrivedView { origin_uri: publish_origin(self.peer, publish), bytes },
                        ),
                    ),
                ),
            ),
            GatheredView::Failed(error) => (self.expecting(None), StepView::failed(error)),
        }
    }

    /// The session after a frame, `None` where the client closed, and what it
    /// does about it. What it had to send before is sent.
    pub open spec fn on_frame(self, frame: Option<FrameView>) -> (
        SessionView,
        StepView<Option<EventView>>,
    ) {
        match self.publish {
            Some(publish) => self.settled().on_content(publish, frame),
            None => self.settled().on_idle(frame),
        }
    }
}

/// The publish in an event; other events are passed over.
pub open spec fn publish_in(event: Option<EventView>) -> OutcomeView<Option<ArrivedView>> {
    match event {
        Some(EventView::Published(arrived)) => OutcomeView::Done(Some(arrived)),
        Some(_) => OutcomeView::Waiting,
        None => OutcomeView::Done(None),
    }
}

/// Read the queue that a queue.declare names.
fn read_queue(arguments: &[u8]) -> (queue: Result<String, Error>)
    ensures
        match queue_in(arguments@) {
            Some(view) => queue matches Ok(queue) && queue@ == view,
            None => queue == Err::<String, Error>(Error::ArgumentPastFrame),
        },
{
    let mut fields = Reader::new(arguments);
    fields.short()?;
    fields.shortstr()
}

/// Read two short strings after a reserved number.
fn read_pair(arguments: &[u8]) -> (pair: Result<(String, String), Error>)
    ensures
        match pair_in(arguments@) {
            Some(view) => pair matches Ok(pair) && (pair.0@, pair.1@) == view,
            None => pair == Err::<(String, String), Error>(Error::ArgumentPastFrame),
        },
{
    let mut fields = Reader::new(arguments);
    fields.short()?;
    let first = fields.shortstr()?;
    let second = fields.shortstr()?;
    Ok((first, second))
}

/// Whether `header` is the protocol header.
fn is_protocol_header(header: &[u8; 8]) -> (same: bool)
    ensures
        same == (header@ == PROTOCOL_HEADER@),
{
    let mut i: usize = 0;
    while i < 8
        invariant
            i <= 8,
            forall|j: int| 0 <= j < i ==> header@[j] == PROTOCOL_HEADER@[j],
        decreases 8 - i,
    {
        if header[i] != PROTOCOL_HEADER[i] {
            return false;
        }
        i = i + 1;
    }
    assert(header@ =~= PROTOCOL_HEADER@);
    true
}

impl Session {
    /// Begin with a client at `peer` that sent `header` first.
    #[must_use]
    pub fn accept(peer: &str, header: &[u8; 8]) -> (opening: Opening)
        ensures
            opens(peer@, header@, opening),
    {
        if is_protocol_header(header) {
            let accepting = Accepting {
                peer: peer.to_string(),
                user: String::new(),
                stage: Stage::StartOk,
            };
            assert(accepting.user@ =~= Seq::empty());
            Opening::Accepted { accepting, start: start() }
        } else {
            Opening::Refused { answer: PROTOCOL_HEADER, error: Error::NotAmqp }
        }
    }

    /// Who connected, as the PLAIN response named them.
    #[must_use]
    pub fn user(&self) -> (user: &str)
        ensures
            user@ == self.deep_view().user,
    {
        self.user.as_str()
    }

    /// Go on to the next message the client publishes, or `None` when it
    /// closed. Channels, declarations and consumers are answered on the way.
    pub fn next_publish(&mut self, frame: Option<Frame>) -> (step: Step<Option<Arrived>>)
        ensures
            final(self).deep_view() == old(self).deep_view().on_frame(frame.deep_view()).0,
            step.deep_view() == old(self).deep_view().on_frame(frame.deep_view()).1.followed_by(
                |event: Option<EventView>| publish_in(event),
            ),
    {
        let step = self.next_event(frame);
        let outcome = match step.outcome {
            Outcome::Waiting => Outcome::Waiting,
            Outcome::Failed(error) => Outcome::Failed(error),
            Outcome::Done(Some(Event::Published(arrived))) => Outcome::Done(Some(arrived)),
            Outcome::Done(Some(_)) => Outcome::Waiting,
            Outcome::Done(None) => Outcome::Done(None),
        };
        Step { send: step.send, outcome }
    }

    /// Go on to the next thing the client does, or `None` when it closed.
    pub fn next_event(&mut self, frame: Option<Frame>) -> (step: Step<Option<Event>>)
        ensures
            (final(self).deep_view(), step.deep_view()) == old(self).deep_view().on_frame(
                frame.deep_view(),
            ),
    {
        self.replaced = None;
        match self.publish.take() {
            Some(publish) => self.go_on(publish, frame),
            None => match frame {
                None => Step::done(None),
                Some(Frame::Method { channel, class, method, arguments }) => self.serve(
                    channel,
                    class,
                    method,
                    &arguments,
                ),
                Some(Frame::Heartbeat) => Step::sending(Frame::Heartbeat, Outcome::Waiting),
                Some(_) => Step::waiting(),
            },
        }
    }

    /// Answer a method.
    fn serve(&mut self, channel: u16, class: u16, method: u16, arguments: &[u8]) -> (step: Step<
        Option<Event>,
    >)
        ensures
            (final(self).deep_view(), step.deep_view()) == old(self).deep_view().on_method(
                channel,
                class,
                method,
                arguments@,
            ),
    {
        match (class, method) {
            (CLASS_CHANNEL, 10) => Step::sending(channel_open_ok(channel), Outcome::Waiting),
            (CLASS_CHANNEL, 40) => Step::sending(
                Frame::method(channel, CLASS_CHANNEL, 41, Vec::new()),
                Outcome::Waiting,
            ),
            (CLASS_QUEUE, 10) => match read_queue(arguments) {
                Ok(queue) => Step::sending(
                    declare_ok(channel, queue.as_str()),
                    Outcome::Done(Some(Event::Declared(queue))),
                ),
                Err(error) => Step::failed(error),
            },
            (CLASS_BASIC, 20) => match read_pair(arguments) {
                Ok((queue, asked)) => {
                    let tag = if asked.as_str().unicode_len() == 0 {
                        "xmip.1".to_string()
                    } else {
                        asked
                    };
                    let answer = consume_ok(channel, tag.as_str());
                    self.replaced = Some(self.consumer_tag.take());
                    self.consumer_tag = Some(tag);
                    Step::sending(answer, Outcome::Done(Some(Event::Consuming(queue))))
                },
                Err(error) => Step::failed(error),
            },
            (CLASS_BASIC, 40) => match read_pair(arguments) {
                Ok((exchange, routing_key)) => {
                    self.publish = Some(
                        Publish { exchange, routing_key, content: Incoming::new() },
                    );
                    Step::waiting()
                },
                Err(error) => Step::failed(error),
            },
            (CLASS_BASIC, 80) => Step::waiting(),
            (CLASS_CONNECTION, 50) => Step::sending(client::close_ok(), Outcome::Done(None)),
            (class, method) => Step::failed(Error::NotServed { class, method }),
        }
    }

    /// Go on with the content of `publish`.
    fn go_on(&mut self, publish: Publish, frame: Option<Frame>) -> (step: Step<Option<Event>>)
        requires
            old(self).deep_view().publish is None,
        ensures
            (final(self).deep_view(), step.deep_view()) == old(self).deep_view().on_content(
                publish.deep_view(),
                frame.deep_view(),
            ),
    {
        match publish.content.gather(frame, Error::PublishWithoutHeader) {
            Gathered::More(content) => {
                self.publish = Some(
                    Publish {
                        exchange: publish.exchange,
                        routing_key: publish.routing_key,
                        content,
                    },
                );
                Step::waiting()
            },
            Gathered::Whole(bytes) => {
                let mut origin_uri = String::new();
                origin_uri.append("amqp://");
                origin_uri.append(self.peer.as_str());
                origin_uri.append("/");
                origin_uri.append(publish.exchange.as_str());
                origin_uri.append("/");
                origin_uri.append(publish.routing_key.as_str());
                assert(origin_uri@ =~= publish_origin(self.peer@, publish.deep_view()));
                Step::done(Some(Event::Published(Arrived { origin_uri, bytes })))
            },
            Gathered::Failed(error) => Step::failed(error),
        }
    }

    /// Give up what is half received: reading from the client failed.
    pub fn abandon(&mut self)
        ensures
            final(self).deep_view() == old(self).deep_view().expecting(None),
    {
        self.publish = None;
    }

    /// Take back what the last answer confirms: it could not be sent.
    pub fn take_back(&mut self)
        ensures
            final(self).deep_view() == old(self).deep_view().unanswered(),
    {
        match self.replaced.take() {
            Some(before) => {
                self.consumer_tag = before;
            },
            None => {},
        }
    }

    /// How many messages were delivered to the consumer.
    #[must_use]
    pub fn deliveries(&self) -> (count: u64)
        ensures
            count == self.deep_view().delivery_tag,
    {
        self.delivery_tag
    }

    /// Deliver `body` to the consumer under `routing_key`: what to send.
    ///
    /// # Errors
    /// Where no consumer was started.
    pub fn deliver(&mut self, routing_key: &str, body: &[u8]) -> (frames: Result<
        Vec<Frame>,
        Error,
    >)
        requires
            old(self).deep_view().consumer_tag is Some ==> old(self).deep_view().delivery_tag
                < u64::MAX,
        ensures
            match old(self).deep_view().consumer_tag {
                Some(tag) => {
                    &&& final(self).deep_view() == old(self).deep_view().delivering()
                    &&& frames matches Ok(frames) && frames.deep_view() == delivered(
                        tag,
                        final(self).deep_view().delivery_tag,
                        routing_key@,
                        body@,
                    )
                },
                None => {
                    &&& final(self).deep_view() == old(self).deep_view()
                    &&& frames == Err::<Vec<Frame>, Error>(Error::NoConsumer)
                },
            },
    {
        let tag = match &self.consumer_tag {
            Some(tag) => tag.clone(),
            None => return Err(Error::NoConsumer),
        };
        self.replaced = None;
        self.delivery_tag = self.delivery_tag + 1;
        let mut frames: Vec<Frame> = Vec::new();
        frames.push(deliver(tag.as_str(), self.delivery_tag, routing_key));
        assert(frames.deep_view() =~= seq![
            deliver_frame(tag@, self.delivery_tag, routing_key@),
        ]);
        put_content(&mut frames, body, FRAME_MAX as usize - 8);
        Ok(frames)
    }
}

} // verus!

//! The client's side of one connection to a broker: the handshake, one
//! channel, publish, consume, deliver.
//!
//! Nothing here touches a stream. A call says what to send, and is then given
//! each frame that is read, `None` where the broker closed, until it is done.
use vstd::prelude::*;
use vstd::string::*;
use vstd::utf8::*;

use crate::arguments;
use crate::content::{
    self, put_content, Arrived, ArrivedView, Gathered, GatheredView, Incoming, IncomingView,
};
use crate::error::{Error, ErrorView};
use crate::frame::{
    Frame, FrameView, Reader, Writer, CLASS_BASIC, CLASS_CHANNEL, CLASS_CONNECTION, CLASS_QUEUE,
    FRAME_MAX, PROTOCOL_HEADER,
};
use crate::method::Awaited;
use crate::octets;
use crate::reader::Unread;
use crate::step::{Outcome, OutcomeView, Step, StepView};
use crate::text::{self, put_decimal};

verus! {

/// What a Location presents when it connects.
#[derive(Clone, Debug)]
pub struct Login {
    pub user: String,
    pub password: String,
    pub virtual_host: String,
}

/// What a Location presents when it connects.
pub struct LoginView {
    pub user: Seq<char>,
    pub password: Seq<char>,
    pub virtual_host: Seq<char>,
}

impl DeepView for Login {
    type V = LoginView;

    open spec fn deep_view(&self) -> LoginView {
        LoginView {
            user: self.user@,
            password: self.password@,
            virtual_host: self.virtual_host@,
        }
    }
}

impl Default for Login {
    fn default() -> (login: Self)
        ensures
            login.deep_view() == (LoginView {
                user: "guest"@,
                password: "guest"@,
                virtual_host: "/"@,
            }),
    {
        Self {
            user: "guest".to_string(),
            password: "guest".to_string(),
            virtual_host: "/".to_string(),
        }
    }
}

/// What PLAIN presents: the user and the password, a NUL before each.
pub open spec fn plain_response(login: LoginView) -> Seq<char> {
    seq!['\0'] + login.user + seq!['\0'] + login.password
}

/// The table that a peer describes itself with.
pub open spec fn own_properties() -> Seq<u8> {
    arguments::table(seq![("product"@, "xmip"@)])
}

/// connection.start-ok: the client's properties, the mechanism, what it
/// presents, and the locale.
pub open spec fn start_ok_frame(login: LoginView) -> FrameView {
    FrameView::Method {
        channel: 0,
        class: CLASS_CONNECTION,
        method: 11,
        arguments: own_properties() + arguments::short_string("PLAIN"@) + arguments::long_string(
            encode_utf8(plain_response(login)),
        ) + arguments::short_string("en_US"@),
    }
}

/// connection.tune-ok: the channels the broker allows, the frame size, and no
/// heartbeat.
pub open spec fn tune_ok_frame(channel_max: u16, frame_max: u32) -> FrameView {
    FrameView::Method {
        channel: 0,
        class: CLASS_CONNECTION,
        method: 31,
        arguments: octets::big_endian(channel_max as nat, 2) + octets::big_endian(
            frame_max as nat,
            4,
        ) + octets::big_endian(0, 2),
    }
}

/// connection.open: the virtual host, and two reserved arguments.
pub open spec fn open_frame(virtual_host: Seq<char>) -> FrameView {
    FrameView::Method {
        channel: 0,
        class: CLASS_CONNECTION,
        method: 40,
        arguments: arguments::short_string(virtual_host) + arguments::short_string(""@)
            + arguments::packed(seq![false]),
    }
}

/// channel.open: one reserved argument.
pub open spec fn channel_open_frame() -> FrameView {
    FrameView::Method {
        channel: 1,
        class: CLASS_CHANNEL,
        method: 10,
        arguments: arguments::short_string(""@),
    }
}

/// queue.declare: the queue, durable and nothing else, and no arguments.
pub open spec fn declare_frame(queue: Seq<char>) -> FrameView {
    FrameView::Method {
        channel: 1,
        class: CLASS_QUEUE,
        method: 10,
        arguments: octets::big_endian(0, 2) + arguments::short_string(queue) + arguments::packed(
            seq![false, true, false, false, false],
        ) + arguments::table(Seq::empty()),
    }
}

/// basic.publish: the exchange and the routing key, neither mandatory nor
/// immediate.
pub open spec fn publish_frame(exchange: Seq<char>, routing_key: Seq<char>) -> FrameView {
    FrameView::Method {
        channel: 1,
        class: CLASS_BASIC,
        method: 40,
        arguments: octets::big_endian(0, 2) + arguments::short_string(exchange)
            + arguments::short_string(routing_key) + arguments::packed(seq![false, false]),
    }
}

/// A publish as it is sent: the method, the content header, and the body split
/// so that no frame of it exceeds `frame_max`.
pub open spec fn published(
    exchange: Seq<char>,
    routing_key: Seq<char>,
    body: Seq<u8>,
    frame_max: nat,
) -> Seq<FrameView> {
    seq![publish_frame(exchange, routing_key)] + content::content_frames(
        body,
        (frame_max - 8) as nat,
    )
}

/// basic.consume: the queue, a tag for the broker to choose, none of the
/// options, and no arguments.
pub open spec fn consume_frame(queue: Seq<char>) -> FrameView {
    FrameView::Method {
        channel: 1,
        class: CLASS_BASIC,
        method: 20,
        arguments: octets::big_endian(0, 2) + arguments::short_string(queue)
            + arguments::short_string(""@) + arguments::packed(seq![false, false, false, false])
            + arguments::table(Seq::empty()),
    }
}

/// basic.ack: this delivery, and no other.
pub open spec fn ack_frame(delivery_tag: u64) -> FrameView {
    FrameView::Method {
        channel: 1,
        class: CLASS_BASIC,
        method: 80,
        arguments: octets::big_endian(delivery_tag as nat, 8) + arguments::packed(seq![false]),
    }
}

/// connection.close: all is well, and no method is to blame.
pub open spec fn close_frame() -> FrameView {
    FrameView::Method {
        channel: 0,
        class: CLASS_CONNECTION,
        method: 50,
        arguments: octets::big_endian(200, 2) + arguments::short_string("bye"@)
            + octets::big_endian(0, 2) + octets::big_endian(0, 2),
    }
}

/// connection.close-ok.
pub open spec fn close_ok_frame() -> FrameView {
    FrameView::Method {
        channel: 0,
        class: CLASS_CONNECTION,
        method: 51,
        arguments: Seq::empty(),
    }
}

/// connection.close-ok.
pub fn close_ok() -> (frame: Frame)
    ensures
        frame.deep_view() == close_ok_frame(),
{
    Frame::method(0, CLASS_CONNECTION, 51, Vec::new())
}

/// connection.start-ok.
fn start_ok(login: &Login) -> (frame: Frame)
    ensures
        frame.deep_view() == start_ok_frame(login.deep_view()),
{
    let mut response = String::new();
    response.append("\0");
    response.append(login.user.as_str());
    response.append("\0");
    response.append(login.password.as_str());
    proof {
        reveal_strlit("\0");
        assert(response@ =~= plain_response(login.deep_view()));
    }
    let mut arguments = Writer::new();
    let product = [("product", "xmip")];
    let properties: &[(&str, &str)] = product.as_slice();
    assert(properties.deep_view() =~= seq![("product"@, "xmip"@)]);
    arguments.table(properties).shortstr("PLAIN").longstr(
        response.as_str().as_bytes(),
    ).shortstr("en_US");
    let octets = arguments.finish();
    assert(octets@ =~= own_properties() + arguments::short_string("PLAIN"@)
        + arguments::long_string(encode_utf8(response@)) + arguments::short_string("en_US"@));
    Frame::method(0, CLASS_CONNECTION, 11, octets)
}

/// connection.tune-ok.
fn tune_ok(channel_max: u16, frame_max: u32) -> (frame: Frame)
    ensures
        frame.deep_view() == tune_ok_frame(channel_max, frame_max),
{
    let mut arguments = Writer::new();
    arguments.short(channel_max).long(frame_max).short(0);
    let octets = arguments.finish();
    assert(octets@ =~= octets::big_endian(channel_max as nat, 2) + octets::big_endian(
        frame_max as nat,
        4,
    ) + octets::big_endian(0, 2));
    Frame::method(0, CLASS_CONNECTION, 31, octets)
}

/// connection.open.
fn open(virtual_host: &str) -> (frame: Frame)
    ensures
        frame.deep_view() == open_frame(virtual_host@),
{
    let mut arguments = Writer::new();
    arguments.shortstr(virtual_host).shortstr("").bit(false);
    let octets = arguments.finish();
    proof {
        reveal_with_fuel(arguments::packed, 2);
        assert(octets@ =~= arguments::short_string(virtual_host@) + arguments::short_string(""@)
            + arguments::packed(seq![false]));
    }
    Frame::method(0, CLASS_CONNECTION, 40, octets)
}

/// channel.open.
fn channel_open() -> (frame: Frame)
    ensures
        frame.deep_view() == channel_open_frame(),
{
    let mut arguments = Writer::new();
    arguments.shortstr("");
    let octets = arguments.finish();
    assert(octets@ =~= arguments::short_string(""@));
    Frame::method(1, CLASS_CHANNEL, 10, octets)
}

/// basic.ack.
fn ack(delivery_tag: u64) -> (frame: Frame)
    ensures
        frame.deep_view() == ack_frame(delivery_tag),
{
    let mut arguments = Writer::new();
    arguments.longlong(delivery_tag).bit(false);
    let octets = arguments.finish();
    proof {
        reveal_with_fuel(arguments::packed, 2);
        assert(octets@ =~= octets::big_endian(delivery_tag as nat, 8) + arguments::packed(
            seq![false],
        ));
    }
    Frame::method(1, CLASS_BASIC, 80, octets)
}

/// What a client does about a frame while it waits for a method: takes the
/// method, answers a heartbeat with one, passes over other frames, and fails
/// where the broker closes. A connection.close is answered and its reason
/// told.
pub open spec fn awaiting(awaited: Awaited, frame: Option<FrameView>) -> StepView<Seq<u8>> {
    match frame {
        Some(FrameView::Method { channel, class, method, arguments }) => if (channel, class, method)
            == awaited.address() {
            StepView::done(arguments)
        } else if class == CLASS_CONNECTION && method == 50 {
            match close_reason(arguments) {
                Some((code, text)) => StepView {
                    send: seq![close_ok_frame()],
                    outcome: OutcomeView::Failed(ErrorView::BrokerRefused { awaited, code, text }),
                },
                None => StepView::failed(ErrorView::ArgumentPastFrame),
            }
        } else {
            StepView::waiting()
        },
        Some(FrameView::Heartbeat) => StepView::answering(FrameView::Heartbeat),
        Some(_) => StepView::waiting(),
        None => StepView::failed(ErrorView::BrokerClosed { awaited }),
    }
}

/// The code and the text that a connection.close gives.
pub open spec fn close_reason(arguments: Seq<u8>) -> Option<(u16, Seq<char>)> {
    match arguments::read_number(arguments, 2) {
        Some((code, rest)) => match arguments::read_short_string(rest) {
            Some((text, _)) => Some((code as u16, text)),
            None => None,
        },
        None => None,
    }
}

/// What to do about a frame while `awaited` is waited for.
pub fn expect(awaited: Awaited, frame: Option<Frame>) -> (step: Step<Vec<u8>>)
    ensures
        step.deep_view() == awaiting(awaited, frame.deep_view()),
{
    match frame {
        Some(Frame::Method { channel, class, method, arguments }) => {
            if awaited.has_address(channel, class, method) {
                assert(arguments.deep_view() =~= arguments@);
                return Step::done(arguments);
            }
            if class == CLASS_CONNECTION && method == 50 {
                let mut fields = Reader::new(&arguments);
                let code: u16 = match fields.short() {
                    Ok(code) => code,
                    Err(error) => return Step::failed(error),
                };
                let text: String = match fields.shortstr() {
                    Ok(text) => text,
                    Err(error) => return Step::failed(error),
                };
                return Step::sending(
                    close_ok(),
                    Outcome::Failed(Error::BrokerRefused { awaited, code, text }),
                );
            }
            Step::waiting()
        },
        Some(Frame::Heartbeat) => Step::sending(Frame::Heartbeat, Outcome::Waiting),
        Some(_) => Step::waiting(),
        None => Step::failed(Error::BrokerClosed { awaited }),
    }
}

/// The frame size that a client and a broker settle on: what the broker
/// allows, 0 being no limit, but no more than this transport accepts.
pub open spec fn negotiated(allowed: u32) -> u32 {
    if allowed == 0 || allowed > FRAME_MAX {
        FRAME_MAX
    } else {
        allowed
    }
}

/// The frame size that a client and a broker settle on.
fn negotiate(allowed: u32) -> (frame_max: u32)
    ensures
        frame_max == negotiated(allowed),
{
    if allowed == 0 || allowed > FRAME_MAX {
        FRAME_MAX
    } else {
        allowed
    }
}

/// How far a client's handshake has come.
#[derive(Clone, Copy, Debug, PartialEq, Eq)]
pub enum Stage {
    /// The protocol header is sent, connection.start is to come.
    Start,
    /// connection.start-ok is sent, connection.tune is to come.
    Tune,
    /// connection.tune-ok and connection.open are sent, connection.open-ok is
    /// to come.
    OpenOk { frame_max: u32 },
    /// channel.open is sent, channel.open-ok is to come.
    ChannelOpenOk { frame_max: u32 },
}

impl Stage {
    /// The method that is to come.
    pub open spec fn next(self) -> Awaited {
        match self {
            Stage::Start => Awaited::ConnectionStart,
            Stage::Tune => Awaited::ConnectionTune,
            Stage::OpenOk { .. } => Awaited::ConnectionOpenOk,
            Stage::ChannelOpenOk { .. } => Awaited::ChannelOpenOk,
        }
    }

    /// The method that is to come.
    fn awaited(&self) -> (awaited: Awaited)
        ensures
            awaited == self.next(),
    {
        match self {
            Stage::Start => Awaited::ConnectionStart,
            Stage::Tune => Awaited::ConnectionTune,
            Stage::OpenOk { .. } => Awaited::ConnectionOpenOk,
            Stage::ChannelOpenOk { .. } => Awaited::ChannelOpenOk,
        }
    }
}

/// A connection whose handshake is under way.
pub struct Connecting {
    broker: String,
    login: Login,
    stage: Stage,
}

/// A connection whose handshake is under way.
pub struct ConnectingView {
    pub broker: Seq<char>,
    pub login: LoginView,
    pub stage: Stage,
}

impl DeepView for Connecting {
    type V = ConnectingView;

    closed spec fn deep_view(&self) -> ConnectingView {
        ConnectingView {
            broker: self.broker@,
            login: self.login.deep_view(),
            stage: self.stage,
        }
    }
}

/// The channels and the frame size that a connection.tune allows.
pub open spec fn tuning(arguments: Seq<u8>) -> Option<(u16, u32)> {
    match arguments::read_number(arguments, 2) {
        Some((channel_max, rest)) => match arguments::read_number(rest, 4) {
            Some((frame_max, _)) => Some((channel_max as u16, frame_max as u32)),
            None => None,
        },
        None => None,
    }
}

impl ConnectingView {
    /// The same handshake at another stage.
    pub open spec fn at(self, stage: Stage) -> ConnectingView {
        ConnectingView { broker: self.broker, login: self.login, stage }
    }

    /// The handshake once the method that was to come has come, and what is
    /// done about it.
    pub open spec fn on_method(self, arguments: Seq<u8>) -> (ConnectingView, StepView<ClientView>) {
        match self.stage {
            Stage::Start => (
                self.at(Stage::Tune),
                StepView::answering(start_ok_frame(self.login)),
            ),
            Stage::Tune => match tuning(arguments) {
                Some((channel_max, allowed)) => {
                    let frame_max = negotiated(allowed);
                    (
                        self.at(Stage::OpenOk { frame_max }),
                        StepView {
                            send: seq![
                                tune_ok_frame(channel_max, frame_max),
                                open_frame(self.login.virtual_host),
                            ],
                            outcome: OutcomeView::Waiting,
                        },
                    )
                },
                None => (self, StepView::failed(ErrorView::ArgumentPastFrame)),
            },
            Stage::OpenOk { frame_max } => (
                self.at(Stage::ChannelOpenOk { frame_max }),
                StepView::answering(channel_open_frame()),
            ),
            Stage::ChannelOpenOk { frame_max } => (
                self,
                StepView::done(ClientView::opened(self.broker, frame_max)),
            ),
        }
    }

    /// The handshake after a frame, and what is done about it.
    pub open spec fn on_frame(self, frame: Option<FrameView>) -> (
        ConnectingView,
        StepView<ClientView>,
    ) {
        let awaited = awaiting(self.stage.next(), frame);
        match awaited.outcome {
            OutcomeView::Done(arguments) => self.on_method(arguments),
            OutcomeView::Waiting => (
                self,
                StepView { send: awaited.send, outcome: OutcomeView::Waiting },
            ),
            OutcomeView::Failed(error) => (
                self,
                StepView { send: awaited.send, outcome: OutcomeView::Failed(error) },
            ),
        }
    }
}

impl Connecting {
    /// Go on with the next frame, `None` where the broker closed.
    pub fn handle(&mut self, frame: Option<Frame>) -> (step: Step<Client>)
        ensures
            (final(self).deep_view(), step.deep_view()) == old(self).deep_view().on_frame(
                frame.deep_view(),
            ),
    {
        let awaited = expect(self.stage.awaited(), frame);
        let arguments = match awaited.outcome {
            Outcome::Done(arguments) => arguments,
            Outcome::Waiting => return Step { send: awaited.send, outcome: Outcome::Waiting },
            Outcome::Failed(error) => return Step {
                send: awaited.send,
                outcome: Outcome::Failed(error),
            },
        };
        assert(arguments.deep_view() =~= arguments@);
        match self.stage {
            Stage::Start => {
                self.stage = Stage::Tune;
                Step::sending(start_ok(&self.login), Outcome::Waiting)
            },
            Stage::Tune => {
                let mut fields = Reader::new(&arguments);
                let channel_max: u16 = match fields.short() {
                    Ok(channel_max) => channel_max,
                    Err(error) => return Step::failed(error),
                };
                let allowed: u32 = match fields.long() {
                    Ok(allowed) => allowed,
                    Err(error) => return Step::failed(error),
                };
                let frame_max: u32 = negotiate(allowed);
                let mut send: Vec<Frame> = Vec::new();
                send.push(tune_ok(channel_max, frame_max));
                send.push(open(self.login.virtual_host.as_str()));
                self.stage = Stage::OpenOk { frame_max };
                assert(send.deep_view() =~= seq![
                    tune_ok_frame(channel_max, frame_max),
                    open_frame(self.login.virtual_host@),
                ]);
                Step { send, outcome: Outcome::Waiting }
            },
            Stage::OpenOk { frame_max } => {
                self.stage = Stage::ChannelOpenOk { frame_max };
                Step::sending(channel_open(), Outcome::Waiting)
            },
            Stage::ChannelOpenOk { frame_max } => {
                let client = Client {
                    broker: self.broker.clone(),
                    frame_max: frame_max as usize,
                    consumer_tag: None,
                    delivery: None,
                };
                Step::done(client)
            },
        }
    }
}

/// A delivery whose content is on its way.
struct Delivery {
    tag: u64,
    exchange: String,
    routing_key: String,
    content: Incoming,
}

/// A delivery whose content is on its way.
pub struct DeliveryView {
    pub tag: u64,
    pub exchange: Seq<char>,
    pub routing_key: Seq<char>,
    pub content: IncomingView,
}

impl DeepView for Delivery {
    type V = DeliveryView;

    closed spec fn deep_view(&self) -> DeliveryView {
        DeliveryView {
            tag: self.tag,
            exchange: self.exchange@,
            routing_key: self.routing_key@,
            content: self.content.deep_view(),
        }
    }
}

/// One open connection with channel 1 open on it.
pub struct Client {
    broker: String,
    frame_max: usize,
    consumer_tag: Option<String>,
    delivery: Option<Delivery>,
}

/// One open connection with channel 1 open on it: the broker's address, the
/// frame size that was settled on, the tag of its consumer, and the delivery
/// whose content is on its way.
pub struct ClientView {
    pub broker: Seq<char>,
    pub frame_max: nat,
    pub consumer_tag: Option<Seq<char>>,
    pub delivery: Option<DeliveryView>,
}

impl DeepView for Client {
    type V = ClientView;

    closed spec fn deep_view(&self) -> ClientView {
        ClientView {
            broker: self.broker@,
            frame_max: self.frame_max as nat,
            consumer_tag: self.consumer_tag.deep_view(),
            delivery: self.delivery.deep_view(),
        }
    }
}

impl ClientView {
    /// A client right after its handshake.
    pub open spec fn opened(broker: Seq<char>, frame_max: u32) -> ClientView {
        ClientView { broker, frame_max: frame_max as nat, consumer_tag: None, delivery: None }
    }

    /// The same client with another delivery on its way.
    pub open spec fn expecting(self, delivery: Option<DeliveryView>) -> ClientView {
        ClientView {
            broker: self.broker,
            frame_max: self.frame_max,
            consumer_tag: self.consumer_tag,
            delivery,
        }
    }
}

/// How many messages a queue.declare-ok says that its queue holds.
pub open spec fn messages_held(arguments: Seq<u8>) -> OutcomeView<u32> {
    match arguments::read_short_string(arguments) {
        Some((_, rest)) => match arguments::read_number(rest, 4) {
            Some((count, _)) => OutcomeView::Done(count as u32),
            None => OutcomeView::Failed(ErrorView::ArgumentPastFrame),
        },
        None => OutcomeView::Failed(ErrorView::ArgumentPastFrame),
    }
}

/// The delivery that a basic.deliver announces: a consumer tag, the delivery
/// tag, whether it was delivered before, the exchange and the routing key.
pub open spec fn announced(arguments: Seq<u8>) -> Option<DeliveryView> {
    match arguments::read_short_string(arguments) {
        Some((_, rest)) => match arguments::read_number(rest, 8) {
            Some((tag, rest)) => match Unread::at(rest).next_bit() {
                Some((_, rest)) => match arguments::read_short_string(rest.octets) {
                    Some((exchange, rest)) => match arguments::read_short_string(rest) {
                        Some((routing_key, _)) => Some(
                            DeliveryView {
                                tag: tag as u64,
                                exchange,
                                routing_key,
                                content: IncomingView::nothing(),
                            },
                        ),
                        None => None,
                    },
                    None => None,
                },
                None => None,
            },
            None => None,
        },
        None => None,
    }
}

/// Where a delivery came from.
pub open spec fn delivery_origin(broker: Seq<char>, delivery: DeliveryView) -> Seq<char> {
    "amqp://"@ + broker + "/"@ + delivery.exchange + "/"@ + delivery.routing_key
        + "?delivery-tag="@ + text::decimal(delivery.tag as nat)
}

impl ClientView {
    /// The client while it waits for its consumer to be confirmed, and what it
    /// does about a frame.
    pub open spec fn on_consuming(self, frame: Option<FrameView>) -> (ClientView, StepView<()>) {
        let awaited = awaiting(Awaited::BasicConsumeOk, frame);
        match awaited.outcome {
            OutcomeView::Done(arguments) => match arguments::read_short_string(arguments) {
                Some((tag, _)) => (
                    ClientView {
                        broker: self.broker,
                        frame_max: self.frame_max,
                        consumer_tag: Some(tag),
                        delivery: self.delivery,
                    },
                    StepView::done(()),
                ),
                None => (self, StepView::failed(ErrorView::ArgumentPastFrame)),
            },
            _ => (self, awaited.followed_by(|arguments: Seq<u8>| OutcomeView::Done(()))),
        }
    }

    /// The client between deliveries, and what it does about a frame.
    pub open spec fn on_idle(self, frame: Option<FrameView>) -> (
        ClientView,
        StepView<Option<ArrivedView>>,
    ) {
        match frame {
            None => (self, StepView::done(None)),
            Some(FrameView::Method { class, method, arguments, .. }) => if class == CLASS_BASIC
                && method == 60 {
                match announced(arguments) {
                    Some(delivery) => (self.expecting(Some(delivery)), StepView::waiting()),
                    None => (self, StepView::failed(ErrorView::ArgumentPastFrame)),
                }
            } else if class == CLASS_CONNECTION && method == 50 {
                (
                    self,
                    StepView { send: seq![close_ok_frame()], outcome: OutcomeView::Done(None) },
                )
            } else {
                (self, StepView::waiting())
            },
            Some(FrameView::Heartbeat) => (self, StepView::answering(FrameView::Heartbeat)),
            Some(_) => (self, StepView::waiting()),
        }
    }

    /// The client with the content of `delivery` on its way, and what it does
    /// about a frame.
    pub open spec fn on_content(self, delivery: DeliveryView, frame: Option<FrameView>) -> (
        ClientView,
        StepView<Option<ArrivedView>>,
    ) {
        match delivery.content.gather(frame, ErrorView::DeliveryWithoutHeader) {
            GatheredView::More(content) => (
                self.expecting(
                    Some(
                        DeliveryView {
                            tag: delivery.tag,
                            exchange: delivery.exchange,
                            routing_key: delivery.routing_key,
                            content,
                        },
                    ),
                ),
                StepView::waiting(),
            ),
            GatheredView::Whole(bytes) => (
                self.expecting(None),
                StepView {
                    send: seq![ack_frame(delivery.tag)],
                    outcome: OutcomeView::Done(
                        Some(
                            ArrivedView {
                                origin_uri: delivery_origin(self.broker, delivery),
                                bytes,
                            },
                        ),
                    ),
                },
            ),
            GatheredView::Failed(error) => (self.expecting(None), StepView::failed(error)),
        }
    }

    /// The client after a frame, `None` where the broker closed, and what it
    /// does about it while it waits for the next delivery.
    pub open spec fn on_frame(self, frame: Option<FrameView>) -> (
        ClientView,
        StepView<Option<ArrivedView>>,
    ) {
        match self.delivery {
            Some(delivery) => self.on_content(delivery, frame),
            None => self.on_idle(frame),
        }
    }
}

/// Read a basic.deliver.
fn read_announced(arguments: &[u8]) -> (delivery: Result<Delivery, Error>)
    ensures
        match announced(arguments@) {
            Some(view) => delivery matches Ok(delivery) && delivery.deep_view() == view,
            None => delivery == Err::<Delivery, Error>(Error::ArgumentPastFrame),
        },
{
    let mut fields = Reader::new(arguments);
    fields.shortstr()?;
    let tag: u64 = fields.longlong()?;
    fields.bit()?;
    let exchange = fields.shortstr()?;
    let routing_key = fields.shortstr()?;
    Ok(Delivery { tag, exchange, routing_key, content: Incoming::new() })
}

impl Client {
    /// Begin a connection to `broker`: the handshake to go on with, and the
    /// protocol header to send first.
    #[must_use]
    pub fn connect(broker: &str, login: &Login) -> (begun: (Connecting, [u8; 8]))
        ensures
            begun.0.deep_view() == (ConnectingView {
                broker: broker@,
                login: login.deep_view(),
                stage: Stage::Start,
            }),
            begun.1@ == PROTOCOL_HEADER@,
    {
        let login = Login {
            user: login.user.clone(),
            password: login.password.clone(),
            virtual_host: login.virtual_host.clone(),
        };
        let connecting = Connecting { broker: broker.to_string(), login, stage: Stage::Start };
        (connecting, PROTOCOL_HEADER)
    }

    /// The frame size that was settled on.
    #[must_use]
    pub fn frame_max(&self) -> (frame_max: usize)
        ensures
            frame_max == self.deep_view().frame_max,
    {
        self.frame_max
    }

    /// Declare `queue`, durable: what to send.
    #[must_use]
    pub fn declare_queue(&self, queue: &str) -> (frame: Frame)
        ensures
            frame.deep_view() == declare_frame(queue@),
    {
        let mut arguments = Writer::new();
        let none: [(&str, &str); 0] = [];
        let empty: &[(&str, &str)] = none.as_slice();
        assert(empty.deep_view() =~= Seq::empty());
        arguments.short(0).shortstr(queue).bit(false).bit(true).bit(false).bit(false).bit(
            false,
        ).table(empty);
        let octets = arguments.finish();
        proof {
            reveal_with_fuel(arguments::packed, 6);
            assert(octets@ =~= octets::big_endian(0, 2) + arguments::short_string(queue@)
                + arguments::packed(seq![false, true, false, false, false]) + arguments::table(
                Seq::empty(),
            ));
        }
        Frame::method(1, CLASS_QUEUE, 10, octets)
    }

    /// Go on with a declaration: how many messages the queue holds.
    pub fn queue_declared(&self, frame: Option<Frame>) -> (step: Step<u32>)
        ensures
            step.deep_view() == awaiting(Awaited::QueueDeclareOk, frame.deep_view()).followed_by(
                |arguments: Seq<u8>| messages_held(arguments),
            ),
    {
        let awaited = expect(Awaited::QueueDeclareOk, frame);
        let outcome = match awaited.outcome {
            Outcome::Waiting => Outcome::Waiting,
            Outcome::Failed(error) => Outcome::Failed(error),
            Outcome::Done(arguments) => {
                assert(arguments.deep_view() =~= arguments@);
                let mut fields = Reader::new(&arguments);
                match fields.shortstr() {
                    Err(error) => Outcome::Failed(error),
                    Ok(_) => match fields.long() {
                        Err(error) => Outcome::Failed(error),
                        Ok(count) => Outcome::Done(count),
                    },
                }
            },
        };
        Step { send: awaited.send, outcome }
    }

    /// Publish `body` to `exchange` under `routing_key`, the body split at
    /// the negotiated frame size: what to send.
    #[must_use]
    pub fn publish(&self, exchange: &str, routing_key: &str, body: &[u8]) -> (frames: Vec<Frame>)
        requires
            self.deep_view().frame_max > 8,
        ensures
            frames.deep_view() == published(
                exchange@,
                routing_key@,
                body@,
                self.deep_view().frame_max,
            ),
    {
        let mut arguments = Writer::new();
        arguments.short(0).shortstr(exchange).shortstr(routing_key).bit(false).bit(false);
        let octets = arguments.finish();
        proof {
            reveal_with_fuel(arguments::packed, 3);
            assert(octets@ =~= octets::big_endian(0, 2) + arguments::short_string(exchange@)
                + arguments::short_string(routing_key@) + arguments::packed(seq![false, false]));
        }
        let mut frames: Vec<Frame> = Vec::new();
        frames.push(Frame::method(1, CLASS_BASIC, 40, octets));
        assert(frames.deep_view() =~= seq![publish_frame(exchange@, routing_key@)]);
        put_content(&mut frames, body, self.frame_max - 8);
        frames
    }

    /// Consume `queue`, acknowledging each delivery once taken: what to send.
    #[must_use]
    pub fn consume(&self, queue: &str) -> (frame: Frame)
        ensures
            frame.deep_view() == consume_frame(queue@),
    {
        let mut arguments = Writer::new();
        let none: [(&str, &str); 0] = [];
        let empty: &[(&str, &str)] = none.as_slice();
        assert(empty.deep_view() =~= Seq::empty());
        arguments.short(0).shortstr(queue).shortstr("").bit(false).bit(false).bit(false).bit(
            false,
        ).table(empty);
        let octets = arguments.finish();
        proof {
            reveal_with_fuel(arguments::packed, 5);
            assert(octets@ =~= octets::big_endian(0, 2) + arguments::short_string(queue@)
                + arguments::short_string(""@) + arguments::packed(
                seq![false, false, false, false],
            ) + arguments::table(Seq::empty()));
        }
        Frame::method(1, CLASS_BASIC, 20, octets)
    }

    /// Go on with a consumer: it is there once the broker gave it a tag.
    pub fn consuming(&mut self, frame: Option<Frame>) -> (step: Step<()>)
        ensures
            (final(self).deep_view(), step.deep_view()) == old(self).deep_view().on_consuming(
                frame.deep_view(),
            ),
    {
        let awaited = expect(Awaited::BasicConsumeOk, frame);
        match awaited.outcome {
            Outcome::Waiting => Step { send: awaited.send, outcome: Outcome::Waiting },
            Outcome::Failed(error) => Step { send: awaited.send, outcome: Outcome::Failed(error) },
            Outcome::Done(arguments) => {
                assert(arguments.deep_view() =~= arguments@);
                let mut fields = Reader::new(&arguments);
                match fields.shortstr() {
                    Err(error) => Step::failed(error),
                    Ok(tag) => {
                        self.consumer_tag = Some(tag);
                        Step::done(())
                    },
                }
            },
        }
    }

    /// Go on to the next delivery: it is acknowledged once it is whole. `None`
    /// when the broker closed.
    pub fn next_delivery(&mut self, frame: Option<Frame>) -> (step: Step<Option<Arrived>>)
        ensures
            (final(self).deep_view(), step.deep_view()) == old(self).deep_view().on_frame(
                frame.deep_view(),
            ),
    {
        match self.delivery.take() {
            Some(delivery) => self.go_on(delivery, frame),
            None => match frame {
                None => Step::done(None),
                Some(Frame::Method { class, method, arguments, .. }) => {
                    if class == CLASS_BASIC && method == 60 {
                        match read_announced(&arguments) {
                            Ok(delivery) => {
                                self.delivery = Some(delivery);
                                Step::waiting()
                            },
                            Err(error) => Step::failed(error),
                        }
                    } else if class == CLASS_CONNECTION && method == 50 {
                        Step::sending(close_ok(), Outcome::Done(None))
                    } else {
                        Step::waiting()
                    }
                },
                Some(Frame::Heartbeat) => Step::sending(Frame::Heartbeat, Outcome::Waiting),
                Some(_) => Step::waiting(),
            },
        }
    }

    /// Give up what is half received: reading from the broker failed.
    pub fn abandon(&mut self)
        ensures
            final(self).deep_view() == old(self).deep_view().expecting(None),
    {
        self.delivery = None;
    }

    /// Go on with the content of `delivery`.
    fn go_on(&mut self, delivery: Delivery, frame: Option<Frame>) -> (step: Step<Option<Arrived>>)
        requires
            old(self).deep_view().delivery is None,
        ensures
            (final(self).deep_view(), step.deep_view()) == old(self).deep_view().on_content(
                delivery.deep_view(),
                frame.deep_view(),
            ),
    {
        match delivery.content.gather(frame, Error::DeliveryWithoutHeader) {
            Gathered::More(content) => {
                self.delivery = Some(
                    Delivery {
                        tag: delivery.tag,
                        exchange: delivery.exchange,
                        routing_key: delivery.routing_key,
                        content,
                    },
                );
                Step::waiting()
            },
            Gathered::Whole(bytes) => {
                let mut origin_uri = String::new();
                origin_uri.append("amqp://");
                origin_uri.append(self.broker.as_str());
                origin_uri.append("/");
                origin_uri.append(delivery.exchange.as_str());
                origin_uri.append("/");
                origin_uri.append(delivery.routing_key.as_str());
                origin_uri.append("?delivery-tag=");
                put_decimal(&mut origin_uri, delivery.tag);
                assert(origin_uri@ =~= delivery_origin(self.broker@, delivery.deep_view()));
                Step::sending(ack(delivery.tag), Outcome::Done(Some(Arrived { origin_uri, bytes })))
            },
            Gathered::Failed(error) => Step::failed(error),
        }
    }

    /// Say goodbye: what to send.
    #[must_use]
    pub fn close(&self) -> (frame: Frame)
        ensures
            frame.deep_view() == close_frame(),
    {
        let mut arguments = Writer::new();
        arguments.short(200).shortstr("bye").short(0).short(0);
        let octets = arguments.finish();
        assert(octets@ =~= octets::big_endian(200, 2) + arguments::short_string("bye"@)
            + octets::big_endian(0, 2) + octets::big_endian(0, 2));
        Frame::method(0, CLASS_CONNECTION, 50, octets)
    }

    /// Go on with a goodbye until the broker answered it.
    pub fn closing(&self, frame: Option<Frame>) -> (step: Step<()>)
        ensures
            step.deep_view() == awaiting(Awaited::ConnectionCloseOk, frame.deep_view()).followed_by(
                |arguments: Seq<u8>| OutcomeView::Done(()),
            ),
    {
        let awaited = expect(Awaited::ConnectionCloseOk, frame);
        let outcome = match awaited.outcome {
            Outcome::Waiting => Outcome::Waiting,
            Outcome::Failed(error) => Outcome::Failed(error),
            Outcome::Done(_) => Outcome::Done(()),
        };
        Step { send: awaited.send, outcome }
    }
}

} // verus!

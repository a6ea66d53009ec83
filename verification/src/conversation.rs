//! What a client and a session say to each other: that each understands what
//! the other sends.
use vstd::prelude::*;
use vstd::utf8::*;

use crate::arguments;
use crate::client::{self, ClientView, ConnectingView, DeliveryView, LoginView};
use crate::content::{self, ArrivedView, IncomingView};
use crate::error::ErrorView;
use crate::frame::{
    self, FrameView, Scanned, CLASS_BASIC, CLASS_CHANNEL, CLASS_CONNECTION, FRAME_MAX,
};
use crate::method::Awaited;
use crate::octets;
use crate::session::{self, AcceptingView, EventView, PublishView, SessionView};
use crate::step::{OutcomeView, StepView};
use crate::text;

verus! {

/// What came of several frames: how they left a session, what it sent, and
/// what it reported.
pub struct Served {
    pub session: SessionView,
    pub sent: Seq<FrameView>,
    pub reports: Seq<OutcomeView<Option<EventView>>>,
}

/// What came of several frames: how they left a client, what it sent, and what
/// it reported.
pub struct Taken {
    pub client: ClientView,
    pub sent: Seq<FrameView>,
    pub reports: Seq<OutcomeView<Option<ArrivedView>>>,
}

/// What is reported of a call: nothing while it waits.
pub open spec fn report<V>(outcome: OutcomeView<V>) -> Seq<OutcomeView<V>> {
    match outcome {
        OutcomeView::Waiting => Seq::empty(),
        _ => seq![outcome],
    }
}

/// A session that is given several frames, one after the other, and whose
/// answers are all sent.
pub open spec fn serve_all(session: SessionView, frames: Seq<FrameView>) -> Served
    decreases frames.len(),
{
    if frames.len() == 0 {
        Served { session: session.settled(), sent: Seq::empty(), reports: Seq::empty() }
    } else {
        let (next, step) = session.on_frame(Some(frames[0]));
        let rest = serve_all(next, frames.skip(1));
        Served {
            session: rest.session,
            sent: step.send + rest.sent,
            reports: report(step.outcome) + rest.reports,
        }
    }
}

/// A client that is given several frames, one after the other.
pub open spec fn take_all(client: ClientView, frames: Seq<FrameView>) -> Taken
    decreases frames.len(),
{
    if frames.len() == 0 {
        Taken { client, sent: Seq::empty(), reports: Seq::empty() }
    } else {
        let (next, step) = client.on_frame(Some(frames[0]));
        let rest = take_all(next, frames.skip(1));
        Taken {
            client: rest.client,
            sent: step.send + rest.sent,
            reports: report(step.outcome) + rest.reports,
        }
    }
}

/// The frames of a body make a publish whole.
proof fn lemma_publish_gathers(
    session: SessionView,
    publish: PublishView,
    rest: Seq<u8>,
    size: nat,
)
    requires
        size > 0,
        rest.len() > 0,
        session.publish == Some(publish),
        publish.content.bytes.len() + rest.len() <= u64::MAX,
        publish.content.size == Some((publish.content.bytes.len() + rest.len()) as u64),
    ensures
        serve_all(session, content::body_frames(rest, size)) == (Served {
            session: session.settled().expecting(None),
            sent: Seq::empty(),
            reports: seq![
                OutcomeView::Done(
                    Some(
                        EventView::Published(
                            ArrivedView {
                                origin_uri: session::publish_origin(session.peer, publish),
                                bytes: publish.content.bytes + rest,
                            },
                        ),
                    ),
                ),
            ],
        }),
    decreases rest.len(),
{
    content::lemma_body_frames_step(rest, size);
    let length = if rest.len() <= size {
        rest.len()
    } else {
        size
    };
    let piece = rest.take(length as int);
    let left = rest.skip(length as int);
    let frames = content::body_frames(rest, size);
    let got = publish.content.bytes + piece;
    assert(frames.skip(1) =~= content::body_frames(left, size));
    assert(got + left =~= publish.content.bytes + rest);
    let (next, step) = session.on_frame(Some(frames[0]));
    if left.len() == 0 {
        assert(got =~= publish.content.bytes + rest);
        assert(content::body_frames(left, size) =~= Seq::empty());
    } else {
        let content = IncomingView { size: publish.content.size, bytes: got };
        let later = PublishView {
            exchange: publish.exchange,
            routing_key: publish.routing_key,
            content,
        };
        lemma_publish_gathers(session.settled().expecting(Some(later)), later, left, size);
    }
    let served = serve_all(next, frames.skip(1));
    assert(step.send + served.sent =~= served.sent);
    assert(serve_all(session, frames).reports =~= seq![
        OutcomeView::Done(
            Some(
                EventView::Published(
                    ArrivedView {
                        origin_uri: session::publish_origin(session.peer, publish),
                        bytes: publish.content.bytes + rest,
                    },
                ),
            ),
        ),
    ]);
    assert(serve_all(session, frames).sent =~= Seq::empty());
}

/// What a client publishes arrives at a session whole, once, and from where it
/// came, whatever the frame size, and leaves the session as it was. The
/// exchange and the routing key arrive as far as short strings carry them.
pub proof fn a_publish_arrives(
    session: SessionView,
    exchange: Seq<char>,
    routing_key: Seq<char>,
    body: Seq<u8>,
    frame_max: nat,
)
    requires
        session.publish is None,
        frame_max > 8,
        body.len() <= u64::MAX,
    ensures
        serve_all(session, client::published(exchange, routing_key, body, frame_max)) == (Served {
            session: session.settled(),
            sent: Seq::empty(),
            reports: seq![
                OutcomeView::Done(
                    Some(
                        EventView::Published(
                            ArrivedView {
                                origin_uri: "amqp://"@ + session.peer + "/"@ + arguments::carried(
                                    exchange,
                                ) + "/"@ + arguments::carried(routing_key),
                                bytes: body,
                            },
                        ),
                    ),
                ),
            ],
        }),
{
    let size = (frame_max - 8) as nat;
    let frames = client::published(exchange, routing_key, body, frame_max);
    let contents = content::content_frames(body, size);
    let bits = arguments::packed(seq![false, false]);
    octets::lemma_octet_spans();
    arguments::short_strings_round_trip(routing_key, bits);
    arguments::short_strings_round_trip(exchange, arguments::short_string(routing_key) + bits);
    arguments::numbers_round_trip(
        0,
        2,
        arguments::short_string(exchange) + (arguments::short_string(routing_key) + bits),
    );
    assert(octets::big_endian(0, 2) + arguments::short_string(exchange) + arguments::short_string(
        routing_key,
    ) + bits =~= octets::big_endian(0, 2) + (arguments::short_string(exchange) + (
    arguments::short_string(routing_key) + bits)));
    let publish = PublishView {
        exchange: arguments::carried(exchange),
        routing_key: arguments::carried(routing_key),
        content: IncomingView::nothing(),
    };
    let announced = session.settled().expecting(Some(publish));
    assert(session.on_frame(Some(frames[0])) == (
        announced,
        StepView::<Option<EventView>>::waiting(),
    ));
    assert(frames.skip(1) =~= contents);
    let sized = PublishView {
        exchange: publish.exchange,
        routing_key: publish.routing_key,
        content: IncomingView { size: Some(body.len() as u64), bytes: Seq::empty() },
    };
    assert(contents.skip(1) =~= content::body_frames(body, size));
    if body.len() > 0 {
        lemma_publish_gathers(session.settled().expecting(Some(sized)), sized, body, size);
    } else {
        assert(content::body_frames(body, size) =~= Seq::empty());
    }
    assert(Seq::<u8>::empty() + body =~= body);
    reveal_with_fuel(serve_all, 3);
    let (next, step) = announced.on_frame(Some(contents[0]));
    let served = serve_all(next, contents.skip(1));
    assert(step.send =~= Seq::empty());
    assert(step.send + served.sent =~= Seq::empty());
    assert(serve_all(session, frames).sent =~= Seq::empty());
    assert(serve_all(session, frames).reports =~= report(step.outcome) + served.reports);
    assert(body.len() == 0 ==> body =~= Seq::empty());
    assert(serve_all(session, frames).reports =~= seq![
        OutcomeView::Done(
            Some(
                EventView::Published(
                    ArrivedView {
                        origin_uri: session::publish_origin(session.peer, publish),
                        bytes: body,
                    },
                ),
            ),
        ),
    ]);
}

/// The frames of a body make a delivery whole.
proof fn lemma_delivery_gathers(
    client: ClientView,
    delivery: DeliveryView,
    rest: Seq<u8>,
    size: nat,
)
    requires
        size > 0,
        rest.len() > 0,
        client.delivery == Some(delivery),
        delivery.content.bytes.len() + rest.len() <= u64::MAX,
        delivery.content.size == Some((delivery.content.bytes.len() + rest.len()) as u64),
    ensures
        take_all(client, content::body_frames(rest, size)) == (Taken {
            client: client.expecting(None),
            sent: seq![client::ack_frame(delivery.tag)],
            reports: seq![
                OutcomeView::Done(
                    Some(
                        ArrivedView {
                            origin_uri: client::delivery_origin(client.broker, delivery),
                            bytes: delivery.content.bytes + rest,
                        },
                    ),
                ),
            ],
        }),
    decreases rest.len(),
{
    content::lemma_body_frames_step(rest, size);
    let length = if rest.len() <= size {
        rest.len()
    } else {
        size
    };
    let piece = rest.take(length as int);
    let left = rest.skip(length as int);
    let frames = content::body_frames(rest, size);
    let got = delivery.content.bytes + piece;
    assert(frames.skip(1) =~= content::body_frames(left, size));
    assert(got + left =~= delivery.content.bytes + rest);
    let (next, step) = client.on_frame(Some(frames[0]));
    if left.len() == 0 {
        assert(got =~= delivery.content.bytes + rest);
        assert(content::body_frames(left, size) =~= Seq::empty());
    } else {
        let content = IncomingView { size: delivery.content.size, bytes: got };
        let later = DeliveryView {
            tag: delivery.tag,
            exchange: delivery.exchange,
            routing_key: delivery.routing_key,
            content,
        };
        lemma_delivery_gathers(client.expecting(Some(later)), later, left, size);
    }
    let taken = take_all(next, frames.skip(1));
    assert(take_all(client, frames).reports == report(step.outcome) + taken.reports);
    assert(take_all(client, frames).reports =~= seq![
        OutcomeView::Done(
            Some(
                ArrivedView {
                    origin_uri: client::delivery_origin(client.broker, delivery),
                    bytes: delivery.content.bytes + rest,
                },
            ),
        ),
    ]);
    assert(take_all(client, frames).sent =~= seq![client::ack_frame(delivery.tag)]);
}

/// What a basic.deliver announces is read as it was written, the texts as far
/// as short strings carry them.
proof fn lemma_announced(tag: Seq<char>, delivery_tag: u64, routing_key: Seq<char>)
    ensures
        session::deliver_frame(tag, delivery_tag, routing_key) matches FrameView::Method {
            arguments,
            ..
        } && client::announced(arguments) == Some(
            DeliveryView {
                tag: delivery_tag,
                exchange: Seq::empty(),
                routing_key: arguments::carried(routing_key),
                content: IncomingView::nothing(),
            },
        ),
{
    let key = arguments::short_string(routing_key);
    let exchange = arguments::short_string(""@);
    let bits = arguments::packed(seq![false]);
    let number = octets::big_endian(delivery_tag as nat, 8);
    reveal_strlit("");
    reveal_with_fuel(arguments::packed, 2);
    octets::lemma_octet_spans();
    lemma_nothing_is_carried();
    arguments::short_strings_round_trip(routing_key, Seq::empty());
    arguments::short_strings_round_trip(""@, key);
    arguments::numbers_round_trip(delivery_tag as nat, 8, bits + (exchange + key));
    arguments::short_strings_round_trip(tag, number + (bits + (exchange + key)));
    let arguments = arguments::short_string(tag) + number + bits + exchange + key;
    assert(arguments =~= arguments::short_string(tag) + (number + (bits + (exchange + key))));
    assert(key + Seq::empty() =~= key);
    assert((bits + (exchange + key)).skip(1) =~= exchange + key);
    assert(""@ =~= Seq::empty());
}

/// A short string carries an empty text.
proof fn lemma_nothing_is_carried()
    ensures
        arguments::carried(""@) == Seq::<char>::empty(),
        arguments::fits_short_string(""@),
{
    reveal_strlit("");
    assert(""@ =~= Seq::empty());
    reveal_with_fuel(encode_utf8, 1);
    arguments::short_strings_round_trip(""@, Seq::empty());
}

/// What a session delivers arrives at a client whole, once and from where it
/// came, and is acknowledged by its tag. The routing key arrives as far as a
/// short string carries it. The acknowledgement leaves the session as it was,
/// and nothing is sent or reported about it.
pub proof fn a_delivery_arrives_and_is_acknowledged(
    session: SessionView,
    client: ClientView,
    tag: Seq<char>,
    delivery_tag: u64,
    routing_key: Seq<char>,
    body: Seq<u8>,
)
    requires
        session.publish is None,
        client.delivery is None,
        body.len() <= u64::MAX,
    ensures
        take_all(client, session::delivered(tag, delivery_tag, routing_key, body)) == (Taken {
            client,
            sent: seq![client::ack_frame(delivery_tag)],
            reports: seq![
                OutcomeView::Done(
                    Some(
                        ArrivedView {
                            origin_uri: "amqp://"@ + client.broker + "/"@ + "/"@
                                + arguments::carried(routing_key) + "?delivery-tag="@
                                + text::decimal(delivery_tag as nat),
                            bytes: body,
                        },
                    ),
                ),
            ],
        }),
        session.on_frame(Some(client::ack_frame(delivery_tag))) == (
            session.settled(),
            StepView::<Option<EventView>>::waiting(),
        ),
{
    let size = (FRAME_MAX - 8) as nat;
    let frames = session::delivered(tag, delivery_tag, routing_key, body);
    let contents = content::content_frames(body, size);
    lemma_announced(tag, delivery_tag, routing_key);
    let delivery = DeliveryView {
        tag: delivery_tag,
        exchange: Seq::empty(),
        routing_key: arguments::carried(routing_key),
        content: IncomingView::nothing(),
    };
    let announced = client.expecting(Some(delivery));
    assert(client.on_frame(Some(frames[0])) == (
        announced,
        StepView::<Option<ArrivedView>>::waiting(),
    ));
    assert(frames.skip(1) =~= contents);
    let sized = DeliveryView {
        tag: delivery_tag,
        exchange: delivery.exchange,
        routing_key: delivery.routing_key,
        content: IncomingView { size: Some(body.len() as u64), bytes: Seq::empty() },
    };
    assert(contents.skip(1) =~= content::body_frames(body, size));
    if body.len() > 0 {
        lemma_delivery_gathers(client.expecting(Some(sized)), sized, body, size);
    } else {
        assert(content::body_frames(body, size) =~= Seq::empty());
        assert(body =~= Seq::empty());
    }
    assert(Seq::<u8>::empty() + body =~= body);
    reveal_with_fuel(take_all, 3);
    let (next, step) = announced.on_frame(Some(contents[0]));
    let taken = take_all(next, contents.skip(1));
    assert(take_all(client, frames).sent =~= seq![client::ack_frame(delivery_tag)]);
    assert(take_all(client, frames).reports =~= report(step.outcome) + taken.reports);
    assert(client::delivery_origin(client.broker, delivery) =~= "amqp://"@ + client.broker + "/"@
        + "/"@ + arguments::carried(routing_key) + "?delivery-tag="@ + text::decimal(
        delivery_tag as nat,
    ));
    assert(take_all(client, frames).reports =~= seq![
        OutcomeView::Done(
            Some(
                ArrivedView {
                    origin_uri: client::delivery_origin(client.broker, delivery),
                    bytes: body,
                },
            ),
        ),
    ]);
}

/// A text up to its first NUL.
pub open spec fn until_nul(text: Seq<char>) -> Seq<char> {
    match text::parted(text, '\0') {
        Some((before, _)) => before,
        None => text,
    }
}

/// A PLAIN response names the user it was made for, up to a NUL that the name
/// may hold.
pub proof fn a_response_names_the_user(login: LoginView)
    ensures
        session::user_in(client::plain_response(login)) == until_nul(login.user),
        !login.user.contains('\0') ==> until_nul(login.user) == login.user,
{
    let user = login.user;
    let response = client::plain_response(login);
    let rest = user + seq!['\0'] + login.password;
    text::lemma_parted(response, '\0', 0);
    assert(response.skip(1) =~= rest);
    user.index_of_first_ensures('\0');
    match user.index_of_first('\0') {
        Some(first) => {
            assert forall|j: int| 0 <= j < first implies rest[j] != '\0' by {
                assert(rest[j] == user[j]);
            }
            text::lemma_parted(rest, '\0', first);
            assert(rest.take(first) =~= user.take(first));
        },
        None => {
            assert forall|j: int| 0 <= j < user.len() implies rest[j] != '\0' by {
                assert(rest[j] == user[j]);
                assert(user.contains(user[j]));
            }
            text::lemma_parted(rest, '\0', user.len() as int);
            assert(rest.take(user.len() as int) =~= user);
        },
    }
}

/// A session finds in a connection.start-ok what the client presented.
proof fn lemma_response(login: LoginView)
    requires
        encode_utf8(client::plain_response(login)).len() <= u32::MAX,
    ensures
        client::start_ok_frame(login) matches FrameView::Method { arguments, .. }
            && session::response_in(arguments) == Some(client::plain_response(login)),
{
    let response = client::plain_response(login);
    let fields = arguments::table_fields(seq![("product"@, "xmip"@)]);
    let mechanism = arguments::short_string("PLAIN"@);
    let presented = arguments::long_string(encode_utf8(response));
    let locale = arguments::short_string("en_US"@);
    reveal_strlit("xmip");
    reveal_with_fuel(arguments::table_fields, 2);
    text::lemma_utf8_len("xmip"@);
    assert(fields.len() <= u32::MAX) by {
        octets::lemma_big_endian_len(encode_utf8("xmip"@).len(), 4);
    }
    arguments::long_strings_round_trip(fields, mechanism + (presented + locale));
    arguments::short_strings_round_trip("PLAIN"@, presented + locale);
    arguments::long_strings_round_trip(encode_utf8(response), locale);
    text::lemma_utf8_text_round_trip(response);
    assert(client::own_properties() + mechanism + presented + locale =~= client::own_properties()
        + (mechanism + (presented + locale)));
}

/// A client and a session that speak to each other complete the handshake: the
/// frames that one sends are those the other waits for, one after the other.
/// The session knows the user that the client presented, and the client sends
/// frames as large as the session accepts.
pub proof fn a_handshake_completes(broker: Seq<char>, peer: Seq<char>, login: LoginView)
    requires
        encode_utf8(client::plain_response(login)).len() <= u32::MAX,
    ensures
        ({
            let connecting = ConnectingView { broker, login, stage: client::Stage::Start };
            let accepting = AcceptingView::begun(peer);
            let (connecting_1, start_ok) = connecting.on_frame(Some(session::start_frame()));
            let (accepting_1, tune) = accepting.on_frame(Some(start_ok.send[0]));
            let (connecting_2, opening) = connecting_1.on_frame(Some(tune.send[0]));
            let (accepting_2, tuned) = accepting_1.on_frame(Some(opening.send[0]));
            let (_, open_ok) = accepting_2.on_frame(Some(opening.send[1]));
            let session = SessionView::opened(peer, until_nul(login.user));
            let (connecting_3, channel_open) = connecting_2.on_frame(Some(open_ok.send[0]));
            let (session_1, channel_open_ok) = session.on_frame(Some(channel_open.send[0]));
            let (_, connected) = connecting_3.on_frame(Some(channel_open_ok.send[0]));
            &&& start_ok.send.len() == 1 && start_ok.outcome is Waiting
            &&& tune.send.len() == 1 && tune.outcome is Waiting
            &&& opening.send.len() == 2 && opening.outcome is Waiting
            &&& tuned == StepView::<SessionView>::waiting()
            &&& open_ok.send.len() == 1 && open_ok.outcome == OutcomeView::Done(session)
            &&& channel_open.send.len() == 1 && channel_open.outcome is Waiting
            &&& session_1 == session
            &&& channel_open_ok.send.len() == 1 && channel_open_ok.outcome is Waiting
            &&& connected == StepView::done(ClientView::opened(broker, FRAME_MAX))
        }),
        !login.user.contains('\0') ==> until_nul(login.user) == login.user,
{
    lemma_response(login);
    a_response_names_the_user(login);
    octets::lemma_octet_spans();
    let end = octets::big_endian(0, 2);
    let size = octets::big_endian(FRAME_MAX as nat, 4);
    arguments::numbers_round_trip(1, 2, size + end);
    arguments::numbers_round_trip(FRAME_MAX as nat, 4, end);
    assert(octets::big_endian(1, 2) + size + end =~= octets::big_endian(1, 2) + (size + end));
}

/// A queue that a client declares is declared at the session, and the client
/// learns that it holds nothing. Its name arrives as far as a short string
/// carries it.
pub proof fn a_declaration_is_answered(session: SessionView, queue: Seq<char>)
    requires
        session.publish is None,
    ensures
        ({
            let name = arguments::carried(queue);
            let answer = session::declare_ok_frame(1, name);
            &&& session.on_frame(Some(client::declare_frame(queue))) == (
                session.settled(),
                StepView {
                    send: seq![answer],
                    outcome: OutcomeView::Done(Some(EventView::Declared(name))),
                },
            )
            &&& client::awaiting(Awaited::QueueDeclareOk, Some(answer)).followed_by(
                |arguments: Seq<u8>| client::messages_held(arguments),
            ) == StepView::done(0u32)
        }),
{
    let name = arguments::carried(queue);
    let flags = arguments::packed(seq![false, true, false, false, false]) + arguments::table(
        Seq::empty(),
    );
    let zero = octets::big_endian(0, 4);
    octets::lemma_octet_spans();
    arguments::short_strings_round_trip(queue, flags);
    arguments::numbers_round_trip(0, 2, arguments::short_string(queue) + flags);
    assert(octets::big_endian(0, 2) + arguments::short_string(queue) + arguments::packed(
        seq![false, true, false, false, false],
    ) + arguments::table(Seq::empty()) =~= octets::big_endian(0, 2) + (arguments::short_string(
        queue,
    ) + flags));
    arguments::short_strings_round_trip(name, zero + zero);
    arguments::numbers_round_trip(0, 4, zero);
    assert(arguments::short_string(name) + zero + zero =~= arguments::short_string(name) + (zero
        + zero));
}

/// A client that consumes a queue becomes the session's consumer, and both know
/// it by the tag that the session gave. Where the session could not send it, the
/// consumer is taken back. The queue's name arrives as far as a short string
/// carries it.
pub proof fn a_consumer_is_confirmed(session: SessionView, client: ClientView, queue: Seq<char>)
    requires
        session.publish is None,
    ensures
        ({
            let answer = session::consume_ok_frame(1, "xmip.1"@);
            let (confirmed, step) = client.on_consuming(Some(answer));
            &&& session.on_frame(Some(client::consume_frame(queue))) == (
                session.settled().serving("xmip.1"@),
                StepView {
                    send: seq![answer],
                    outcome: OutcomeView::Done(
                        Some(EventView::Consuming(arguments::carried(queue))),
                    ),
                },
            )
            &&& confirmed == (ClientView { consumer_tag: Some("xmip.1"@), ..client })
            &&& step == StepView::done(())
            &&& session.settled().serving("xmip.1"@).unanswered() == session.settled()
        }),
{
    let flags = arguments::packed(seq![false, false, false, false]) + arguments::table(
        Seq::empty(),
    );
    let tag = arguments::short_string(""@);
    octets::lemma_octet_spans();
    lemma_nothing_is_carried();
    arguments::short_strings_round_trip(""@, flags);
    arguments::short_strings_round_trip(queue, tag + flags);
    arguments::numbers_round_trip(0, 2, arguments::short_string(queue) + (tag + flags));
    assert(octets::big_endian(0, 2) + arguments::short_string(queue) + tag + arguments::packed(
        seq![false, false, false, false],
    ) + arguments::table(Seq::empty()) =~= octets::big_endian(0, 2) + (arguments::short_string(
        queue,
    ) + (tag + flags)));
    reveal_strlit("xmip.1");
    text::lemma_utf8_len("xmip.1"@);
    arguments::short_strings_round_trip("xmip.1"@, Seq::empty());
    assert(arguments::short_string("xmip.1"@) + Seq::empty() =~= arguments::short_string(
        "xmip.1"@,
    ));
}

/// A goodbye is answered, ends the session's calls, and the answer is what the
/// client waits for.
pub proof fn a_goodbye_is_answered(session: SessionView)
    requires
        session.publish is None,
    ensures
        session.on_frame(Some(client::close_frame())) == (
            session.settled(),
            StepView::<Option<EventView>> {
                send: seq![client::close_ok_frame()],
                outcome: OutcomeView::Done(None),
            },
        ),
        client::awaiting(Awaited::ConnectionCloseOk, Some(client::close_ok_frame()))
            == StepView::done(Seq::<u8>::empty()),
{
}

/// A broker that closes the connection while a client waits for something else
/// is answered, and the failure tells what it said, the text as far as a short
/// string carries it.
pub proof fn a_refusal_is_told_and_answered(
    awaited: Awaited,
    channel: u16,
    code: u16,
    reason: Seq<char>,
    rest: Seq<u8>,
)
    ensures
        client::awaiting(
            awaited,
            Some(
                FrameView::Method {
                    channel,
                    class: CLASS_CONNECTION,
                    method: 50,
                    arguments: octets::big_endian(code as nat, 2) + arguments::short_string(reason)
                        + rest,
                },
            ),
        ) == (StepView::<Seq<u8>> {
            send: seq![client::close_ok_frame()],
            outcome: OutcomeView::Failed(
                ErrorView::BrokerRefused { awaited, code, text: arguments::carried(reason) },
            ),
        }),
{
    octets::lemma_octet_spans();
    arguments::numbers_round_trip(code as nat, 2, arguments::short_string(reason) + rest);
    arguments::short_strings_round_trip(reason, rest);
    assert(octets::big_endian(code as nat, 2) + arguments::short_string(reason) + rest
        =~= octets::big_endian(code as nat, 2) + (arguments::short_string(reason) + rest));
}

/// A heartbeat is answered with one, and changes nothing else: while a client
/// waits for a method or for a delivery, and while a session waits for a
/// method.
pub proof fn a_heartbeat_is_answered(awaited: Awaited, client: ClientView, session: SessionView)
    requires
        client.delivery is None,
        session.publish is None,
    ensures
        client::awaiting(awaited, Some(FrameView::Heartbeat)) == StepView::<Seq<u8>>::answering(
            FrameView::Heartbeat,
        ),
        client.on_frame(Some(FrameView::Heartbeat)) == (
            client,
            StepView::<Option<ArrivedView>>::answering(FrameView::Heartbeat),
        ),
        session.on_frame(Some(FrameView::Heartbeat)) == (
            session.settled(),
            StepView::<Option<EventView>>::answering(FrameView::Heartbeat),
        ),
{
}

/// Whatever frame comes, a session keeps whom it serves and how many messages
/// it has delivered, and keeps a consumer once it has one. Where its answer
/// could not be sent, its consumer is the one it had. A frame that ends a call,
/// well or not, leaves no publish half received, and neither does a session
/// that is abandoned.
pub proof fn a_session_stays_itself(session: SessionView, frame: Option<FrameView>)
    ensures
        ({
            let (next, step) = session.on_frame(frame);
            &&& next.peer == session.peer
            &&& next.user == session.user
            &&& next.delivery_tag == session.delivery_tag
            &&& session.consumer_tag is Some ==> next.consumer_tag is Some
            &&& next.unanswered().consumer_tag == session.consumer_tag
            &&& !(step.outcome is Waiting) ==> next.publish is None
            &&& next.expecting(None).publish is None
        }),
{
}

/// Whatever frame comes, a client keeps its broker, its frame size and its
/// consumer while it waits for a delivery. A frame that ends a call, well or
/// not, leaves no delivery half received, and neither does a client that is
/// abandoned.
pub proof fn a_client_stays_itself(client: ClientView, frame: Option<FrameView>)
    ensures
        ({
            let (next, step) = client.on_frame(frame);
            &&& next.broker == client.broker
            &&& next.frame_max == client.frame_max
            &&& next.consumer_tag == client.consumer_tag
            &&& !(step.outcome is Waiting) ==> next.delivery is None
            &&& next.expecting(None).delivery is None
        }),
{
}

/// What a session answers to a frame in passing, one that it reports nothing of
/// and that changes nothing: a heartbeat to a heartbeat, nothing to an
/// acknowledgement, and that a channel is opened or closed on the same channel.
pub open spec fn answer_in_passing(frame: FrameView) -> Option<Seq<FrameView>> {
    match frame {
        FrameView::Heartbeat => Some(seq![FrameView::Heartbeat]),
        FrameView::Method { channel, class, method, .. } => if (class, method) == (
            CLASS_BASIC,
            80u16,
        ) {
            Some(Seq::empty())
        } else if (class, method) == (CLASS_CHANNEL, 10u16) {
            Some(seq![session::channel_open_ok_frame(channel)])
        } else if (class, method) == (CLASS_CHANNEL, 40u16) {
            Some(seq![session::channel_close_ok_frame(channel)])
        } else {
            None
        },
        _ => None,
    }
}

/// A heartbeat, an acknowledgement, or the opening or closing of a channel in
/// front of other frames changes nothing but its answer: the session ends up as
/// it would have and reports what it would have, and what it sends comes after
/// the answer.
pub proof fn a_frame_in_passing_changes_nothing_but_its_answer(
    session: SessionView,
    frame: FrameView,
    frames: Seq<FrameView>,
)
    requires
        session.publish is None,
        answer_in_passing(frame) is Some,
    ensures
        ({
            let without = serve_all(session, frames);
            serve_all(session, seq![frame] + frames) == (Served {
                session: without.session,
                sent: answer_in_passing(frame)->Some_0 + without.sent,
                reports: without.reports,
            })
        }),
{
    let whole = seq![frame] + frames;
    assert(whole.skip(1) =~= frames);
    let (next, step) = session.on_frame(Some(frame));
    assert(next == session.settled());
    assert(step.send =~= answer_in_passing(frame)->Some_0);
    assert(serve_all(session.settled(), frames) == serve_all(session, frames));
    assert(report(step.outcome) + serve_all(session, frames).reports =~= serve_all(
        session,
        frames,
    ).reports);
}

/// What came of a call on input as it lies on the wire: how it left the
/// session, what was sent, what the call came to, and what was not read.
pub struct Attended {
    pub session: SessionView,
    pub sent: Seq<FrameView>,
    pub outcome: OutcomeView<Option<EventView>>,
    pub rest: Seq<u8>,
}

/// A session that reads frames from `input` until a call for its next event is
/// over. Where reading fails, what is half received is abandoned.
pub open spec fn attend(session: SessionView, input: Seq<u8>) -> Attended
    decreases input.len(),
{
    match frame::scan(input) {
        Scanned::Closed => {
            let (next, step) = session.on_frame(None);
            Attended {
                session: next.settled(),
                sent: step.send,
                outcome: step.outcome,
                rest: input,
            }
        },
        Scanned::Refused { error, rest } => Attended {
            session: session.settled().expecting(None),
            sent: Seq::empty(),
            outcome: OutcomeView::Failed(error.deep_view()),
            rest,
        },
        Scanned::Frame { frame, rest } => {
            let (next, step) = session.on_frame(Some(frame));
            if step.outcome is Waiting {
                let later = attend(next, rest);
                Attended { sent: step.send + later.sent, ..later }
            } else {
                Attended {
                    session: next.settled(),
                    sent: step.send,
                    outcome: step.outcome,
                    rest,
                }
            }
        },
    }
}

/// A heartbeat, an acknowledgement, or the opening or closing of a channel in
/// front of whatever input, frames or not, changes nothing but its answer: the
/// call comes to the same, leaves the session as it would have, and leaves the
/// same unread.
pub proof fn input_after_a_frame_in_passing_is_attended_alike(
    session: SessionView,
    frame: FrameView,
    input: Seq<u8>,
)
    requires
        session.publish is None,
        answer_in_passing(frame) is Some,
        frame.sized(),
    ensures
        ({
            let without = attend(session, input);
            attend(session, frame.encoded() + input) == (Attended {
                sent: answer_in_passing(frame)->Some_0 + without.sent,
                ..without
            })
        }),
{
    frame::frames_round_trip(frame, input);
    let (next, step) = session.on_frame(Some(frame));
    assert(next == session.settled());
    assert(step.send =~= answer_in_passing(frame)->Some_0);
    assert(attend(session.settled(), input) == attend(session, input));
}

/// A short string takes no more than 256 octets.
proof fn lemma_short_string_len(text: Seq<char>)
    ensures
        arguments::short_string(text).len() <= 256,
{
}

/// No body frame exceeds the frame size that its body was split at, and its
/// size field can spell its size.
proof fn lemma_body_frames_fit(body: Seq<u8>, frame_max: nat)
    requires
        8 < frame_max <= u32::MAX,
    ensures
        forall|i: int|
            0 <= i < content::body_frames(body, (frame_max - 8) as nat).len() ==> {
                let frame = #[trigger] content::body_frames(body, (frame_max - 8) as nat)[i];
                frame.sized() && frame.encoded().len() <= frame_max
            },
{
    let size = (frame_max - 8) as nat;
    content::chunks_make_up_the_body(body, size);
    assert forall|i: int| 0 <= i < content::body_frames(body, size).len() implies {
        let frame = #[trigger] content::body_frames(body, size)[i];
        frame.sized() && frame.encoded().len() <= frame_max
    } by {
        let frame = content::body_frames(body, size)[i];
        assert(frame == FrameView::Body { channel: 1, bytes: content::chunks(body, size)[i] });
        octets::lemma_big_endian_len(frame.channel() as nat, 2);
        octets::lemma_big_endian_len(frame.payload().len(), 4);
    }
}

/// What a client publishes is read off the wire as it was written, and no body
/// frame of it exceeds the frame size that was settled on.
pub proof fn a_publish_crosses_the_wire(
    exchange: Seq<char>,
    routing_key: Seq<char>,
    body: Seq<u8>,
    frame_max: nat,
)
    requires
        8 < frame_max <= u32::MAX,
    ensures
        ({
            let frames = client::published(exchange, routing_key, body, frame_max);
            &&& frame::scan_all(frame::encoded_all(frames)) == Some(frames)
            &&& forall|i: int|
                2 <= i < frames.len() ==> (#[trigger] frames[i]).encoded().len() <= frame_max
        }),
{
    let frames = client::published(exchange, routing_key, body, frame_max);
    lemma_body_frames_fit(body, frame_max);
    lemma_short_string_len(exchange);
    lemma_short_string_len(routing_key);
    arguments::lemma_packed(seq![false, false]);
    lemma_content_follows(frames[0], body, frame_max);
    octets::lemma_big_endian_len(0, 2);
    octets::lemma_big_endian_len(CLASS_BASIC as nat, 2);
    octets::lemma_big_endian_len(40, 2);
    assert(frames[0].sized());
    assert(frames =~= seq![frames[0]] + content::content_frames(body, (frame_max - 8) as nat));
    frame::streams_round_trip(frames);
}

/// A method and the content after it can all be spelled on the wire where the
/// method can, and no body frame exceeds the frame size.
proof fn lemma_content_follows(first: FrameView, body: Seq<u8>, frame_max: nat)
    requires
        8 < frame_max <= u32::MAX,
    ensures
        ({
            let frames = seq![first] + content::content_frames(body, (frame_max - 8) as nat);
            &&& first.sized() ==> forall|i: int|
                0 <= i < frames.len() ==> (#[trigger] frames[i]).sized()
            &&& forall|i: int|
                2 <= i < frames.len() ==> (#[trigger] frames[i]).encoded().len() <= frame_max
        }),
{
    let size = (frame_max - 8) as nat;
    let frames = seq![first] + content::content_frames(body, size);
    let header = content::header_frame(body);
    lemma_body_frames_fit(body, frame_max);
    octets::lemma_big_endian_len(CLASS_BASIC as nat, 2);
    octets::lemma_big_endian_len(0, 2);
    octets::lemma_big_endian_len(body.len() as u64 as nat, 8);
    assert(header.sized());
    assert forall|i: int| 2 <= i < frames.len() implies (#[trigger] frames[i]).encoded().len()
        <= frame_max && frames[i].sized() by {
        assert(frames[i] == content::body_frames(body, size)[i - 2]);
    }
    assert(frames[0] == first);
    assert(frames[1] == header);
}

/// What a session delivers is read off the wire as it was written, and no body
/// frame of it exceeds the frame size that the session proposed.
pub proof fn a_delivery_crosses_the_wire(
    tag: Seq<char>,
    delivery_tag: u64,
    routing_key: Seq<char>,
    body: Seq<u8>,
)
    ensures
        ({
            let frames = session::delivered(tag, delivery_tag, routing_key, body);
            &&& frame::scan_all(frame::encoded_all(frames)) == Some(frames)
            &&& forall|i: int|
                2 <= i < frames.len() ==> (#[trigger] frames[i]).encoded().len() <= FRAME_MAX
        }),
{
    let frames = session::delivered(tag, delivery_tag, routing_key, body);
    lemma_short_string_len(tag);
    lemma_short_string_len(""@);
    lemma_short_string_len(routing_key);
    arguments::lemma_packed(seq![false]);
    octets::lemma_big_endian_len(delivery_tag as nat, 8);
    octets::lemma_big_endian_len(CLASS_BASIC as nat, 2);
    octets::lemma_big_endian_len(60, 2);
    lemma_content_follows(frames[0], body, FRAME_MAX as nat);
    assert(frames[0].sized());
    assert(frames =~= seq![frames[0]] + content::content_frames(body, (FRAME_MAX - 8) as nat));
    frame::streams_round_trip(frames);
}

/// The frame size that is settled on is one that both sides allow, and is never
/// nothing.
pub proof fn both_sides_allow_the_frame_size(allowed: u32)
    ensures
        0 < client::negotiated(allowed) <= FRAME_MAX,
        allowed > 0 ==> client::negotiated(allowed) <= allowed,
{
}

/// One message: what it is sent under, and what it carries.
pub struct Message {
    pub exchange: Seq<char>,
    pub routing_key: Seq<char>,
    pub body: Seq<u8>,
}

/// What a session reports of a message that was published to it.
pub open spec fn publish_report(peer: Seq<char>, message: Message) -> OutcomeView<
    Option<EventView>,
> {
    OutcomeView::Done(
        Some(
            EventView::Published(
                ArrivedView {
                    origin_uri: "amqp://"@ + peer + "/"@ + arguments::carried(message.exchange)
                        + "/"@ + arguments::carried(message.routing_key),
                    bytes: message.body,
                },
            ),
        ),
    )
}

/// What a client reports of a message that was delivered to it.
pub open spec fn delivery_report(
    broker: Seq<char>,
    delivery_tag: nat,
    message: Message,
) -> OutcomeView<Option<ArrivedView>> {
    OutcomeView::Done(
        Some(
            ArrivedView {
                origin_uri: "amqp://"@ + broker + "/"@ + "/"@ + arguments::carried(
                    message.routing_key,
                ) + "?delivery-tag="@ + text::decimal(delivery_tag),
                bytes: message.body,
            },
        ),
    )
}

/// Messages that are published one after the other.
pub open spec fn published_all(messages: Seq<Message>, frame_max: nat) -> Seq<FrameView>
    decreases messages.len(),
{
    if messages.len() == 0 {
        Seq::empty()
    } else {
        let first = messages[0];
        client::published(first.exchange, first.routing_key, first.body, frame_max)
            + published_all(messages.skip(1), frame_max)
    }
}

/// Messages that are delivered one after the other, the first under the tag
/// after `delivery_tag`. A session names no exchange.
pub open spec fn delivered_all(
    tag: Seq<char>,
    delivery_tag: nat,
    messages: Seq<Message>,
) -> Seq<FrameView>
    decreases messages.len(),
{
    if messages.len() == 0 {
        Seq::empty()
    } else {
        let first = messages[0];
        let next = delivery_tag + 1;
        session::delivered(tag, next as u64, first.routing_key, first.body) + delivered_all(
            tag,
            next,
            messages.skip(1),
        )
    }
}

/// Frames that come in two runs do to a session what they do in one.
proof fn lemma_served_in_runs(session: SessionView, first: Seq<FrameView>, second: Seq<FrameView>)
    ensures
        ({
            let before = serve_all(session, first);
            let after = serve_all(before.session, second);
            serve_all(session, first + second) == (Served {
                session: after.session,
                sent: before.sent + after.sent,
                reports: before.reports + after.reports,
            })
        }),
    decreases first.len(),
{
    let before = serve_all(session, first);
    let after = serve_all(before.session, second);
    let whole = serve_all(session, first + second);
    if first.len() == 0 {
        assert(first + second =~= second);
    } else {
        let (next, _) = session.on_frame(Some(first[0]));
        lemma_served_in_runs(next, first.skip(1), second);
        assert((first + second).skip(1) =~= first.skip(1) + second);
    }
    assert(whole.sent =~= before.sent + after.sent);
    assert(whole.reports =~= before.reports + after.reports);
}

/// Frames that come in two runs do to a client what they do in one.
proof fn lemma_taken_in_runs(client: ClientView, first: Seq<FrameView>, second: Seq<FrameView>)
    ensures
        ({
            let before = take_all(client, first);
            let after = take_all(before.client, second);
            take_all(client, first + second) == (Taken {
                client: after.client,
                sent: before.sent + after.sent,
                reports: before.reports + after.reports,
            })
        }),
    decreases first.len(),
{
    let before = take_all(client, first);
    let after = take_all(before.client, second);
    let whole = take_all(client, first + second);
    if first.len() == 0 {
        assert(first + second =~= second);
    } else {
        let (next, _) = client.on_frame(Some(first[0]));
        lemma_taken_in_runs(next, first.skip(1), second);
        assert((first + second).skip(1) =~= first.skip(1) + second);
    }
    assert(whole.sent =~= before.sent + after.sent);
    assert(whole.reports =~= before.reports + after.reports);
}

/// However many messages a client publishes, the session reports each of them,
/// once and in their order, and nothing else.
pub proof fn publishes_arrive_in_order(
    session: SessionView,
    messages: Seq<Message>,
    frame_max: nat,
)
    requires
        session.publish is None,
        frame_max > 8,
        forall|i: int| 0 <= i < messages.len() ==> (#[trigger] messages[i]).body.len() <= u64::MAX,
    ensures
        serve_all(session, published_all(messages, frame_max)) == (Served {
            session: session.settled(),
            sent: Seq::empty(),
            reports: messages.map_values(|message: Message| publish_report(session.peer, message)),
        }),
    decreases messages.len(),
{
    let reports = messages.map_values(|message: Message| publish_report(session.peer, message));
    if messages.len() > 0 {
        let first = messages[0];
        let rest = messages.skip(1);
        let run = client::published(first.exchange, first.routing_key, first.body, frame_max);
        assert forall|i: int| 0 <= i < rest.len() implies (#[trigger] rest[i]).body.len()
            <= u64::MAX by {
            assert(rest[i] == messages[i + 1]);
        }
        a_publish_arrives(session, first.exchange, first.routing_key, first.body, frame_max);
        publishes_arrive_in_order(session.settled(), rest, frame_max);
        lemma_served_in_runs(session, run, published_all(rest, frame_max));
    }
    let served = serve_all(session, published_all(messages, frame_max));
    assert(served.sent =~= Seq::empty());
    assert(served.reports =~= reports);
}

/// However many messages a session delivers, the client reports each of them,
/// once and in their order, acknowledges each by its tag, and nothing else.
pub proof fn deliveries_arrive_in_order(
    client: ClientView,
    tag: Seq<char>,
    delivery_tag: nat,
    messages: Seq<Message>,
)
    requires
        client.delivery is None,
        delivery_tag + messages.len() <= u64::MAX,
        forall|i: int| 0 <= i < messages.len() ==> (#[trigger] messages[i]).body.len() <= u64::MAX,
    ensures
        take_all(client, delivered_all(tag, delivery_tag, messages)) == (Taken {
            client,
            sent: Seq::new(
                messages.len(),
                |i: int| client::ack_frame((delivery_tag + i + 1) as u64),
            ),
            reports: Seq::new(
                messages.len(),
                |i: int|
                    delivery_report(client.broker, (delivery_tag + i + 1) as nat, messages[i]),
            ),
        }),
    decreases messages.len(),
{
    let acks = Seq::new(
        messages.len(),
        |i: int| client::ack_frame((delivery_tag + i + 1) as u64),
    );
    let reports = Seq::new(
        messages.len(),
        |i: int| delivery_report(client.broker, (delivery_tag + i + 1) as nat, messages[i]),
    );
    if messages.len() > 0 {
        let first = messages[0];
        let rest = messages.skip(1);
        let next = delivery_tag + 1;
        let run = session::delivered(tag, next as u64, first.routing_key, first.body);
        assert forall|i: int| 0 <= i < rest.len() implies (#[trigger] rest[i]).body.len()
            <= u64::MAX by {
            assert(rest[i] == messages[i + 1]);
        }
        a_delivery_arrives_and_is_acknowledged(
            SessionView::opened(Seq::empty(), Seq::empty()),
            client,
            tag,
            next as u64,
            first.routing_key,
            first.body,
        );
        deliveries_arrive_in_order(client, tag, next, rest);
        lemma_taken_in_runs(client, run, delivered_all(tag, next, rest));
    }
    let taken = take_all(client, delivered_all(tag, delivery_tag, messages));
    assert(taken.sent =~= acks);
    assert(taken.reports =~= reports);
}

/// A publish is one method, and then the body's size and the body in frames
/// that make it up. Each of these but the last fills the frame size that was
/// settled on, and none is empty.
pub proof fn a_publish_fills_its_frames(
    exchange: Seq<char>,
    routing_key: Seq<char>,
    body: Seq<u8>,
    frame_max: nat,
)
    requires
        8 < frame_max <= u32::MAX,
        body.len() <= u64::MAX,
    ensures
        fills_frames(client::published(exchange, routing_key, body, frame_max), body, frame_max),
{
    let frames = client::published(exchange, routing_key, body, frame_max);
    lemma_frames_are_filled(frames[0], body, frame_max);
    assert(frames =~= seq![frames[0]] + content::content_frames(body, (frame_max - 8) as nat));
}

/// A delivery is one method, and then the body's size and the body in frames
/// that make it up. Each of these but the last fills the frame size that the
/// session proposes, and none is empty.
pub proof fn a_delivery_fills_its_frames(
    tag: Seq<char>,
    delivery_tag: u64,
    routing_key: Seq<char>,
    body: Seq<u8>,
)
    requires
        body.len() <= u64::MAX,
    ensures
        fills_frames(session::delivered(tag, delivery_tag, routing_key, body), body, 131072),
{
    let frames = session::delivered(tag, delivery_tag, routing_key, body);
    lemma_frames_are_filled(frames[0], body, 131072);
    assert(frames =~= seq![frames[0]] + content::content_frames(body, (FRAME_MAX - 8) as nat));
}

/// These frames are a method, the header of `body` on channel 1, and `body` in
/// frames on channel 1 that are each as large as `frame_max` allows, but for the
/// last, which is no larger and not empty.
pub open spec fn fills_frames(frames: Seq<FrameView>, body: Seq<u8>, frame_max: nat) -> bool {
    &&& frames.len() >= 2
    &&& frames[0] is Method
    &&& frames[1] == (FrameView::Header { channel: 1, class: 60, body_size: body.len() as u64 })
    &&& forall|i: int|
        2 <= i < frames.len() ==> (#[trigger] frames[i] matches FrameView::Body { channel, bytes }
            && channel == 1 && bytes.len() > 0 && frames[i].encoded().len() <= frame_max && (i
            < frames.len() - 1 ==> frames[i].encoded().len() == frame_max))
    &&& content::joined(
        Seq::new((frames.len() - 2) as nat, |i: int| frames[i + 2]->Body_bytes),
    ) == body
}

/// Content after a method fills its frames.
proof fn lemma_frames_are_filled(first: FrameView, body: Seq<u8>, frame_max: nat)
    requires
        first is Method,
        8 < frame_max <= u32::MAX,
        body.len() <= u64::MAX,
    ensures
        fills_frames(
            seq![first] + content::content_frames(body, (frame_max - 8) as nat),
            body,
            frame_max,
        ),
{
    let size = (frame_max - 8) as nat;
    let contents = content::content_frames(body, size);
    let frames = seq![first] + contents;
    content::content_is_sent_whole(body, size);
    assert(Seq::new((frames.len() - 2) as nat, |i: int| frames[i + 2]->Body_bytes) =~= Seq::new(
        (contents.len() - 1) as nat,
        |i: int| contents[i + 1]->Body_bytes,
    ));
    assert forall|i: int| 2 <= i < frames.len() implies (
    #[trigger] frames[i] matches FrameView::Body { channel, bytes } && channel == 1
        && bytes.len() > 0 && frames[i].encoded().len() <= frame_max && (i < frames.len() - 1
        ==> frames[i].encoded().len() == frame_max)) by {
        assert(frames[i] == contents[i - 1]);
        octets::lemma_big_endian_len(1, 2);
        octets::lemma_big_endian_len(frames[i].payload().len(), 4);
    }
}

} // verus!

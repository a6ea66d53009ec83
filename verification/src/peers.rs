//! What a client makes of any broker and a session of any client, whatever
//! they send.
use vstd::prelude::*;

use crate::arguments;
use crate::client::{self, ClientView, ConnectingView, DeliveryView};
use crate::content::{self, ArrivedView, IncomingView};
use crate::conversation::{self, Served, Taken};
use crate::error::ErrorView;
use crate::frame::{self, FrameView};
use crate::method::Awaited;
use crate::octets;
use crate::session::{self, AcceptingView, EventView, PublishView, SessionView};
use crate::step::{OutcomeView, StepView};
use crate::text;

verus! {

/// The text whose length stands at `at`.
pub open spec fn text_at(octets: Seq<u8>, at: int) -> Seq<char> {
    text::utf8_text(octets.subrange(at + 1, at + 1 + octets[at]))
}

/// `octets` hold a whole text whose length stands at `at`.
pub open spec fn has_text_at(octets: Seq<u8>, at: int) -> bool {
    at < octets.len() && at + 1 + octets[at] <= octets.len()
}

/// Where the text whose length stands at `at` ends.
pub open spec fn end_of_text(octets: Seq<u8>, at: int) -> int {
    at + 1 + octets[at]
}

/// A short string that is read from `at` on.
proof fn lemma_text_at(octets: Seq<u8>, at: int)
    requires
        0 <= at <= octets.len(),
    ensures
        has_text_at(octets, at) ==> arguments::read_short_string(octets.skip(at)) == Some(
            (text_at(octets, at), octets.skip(end_of_text(octets, at))),
        ),
        !has_text_at(octets, at) ==> arguments::read_short_string(octets.skip(at)) is None,
{
    let rest = octets.skip(at);
    if at < octets.len() {
        assert(rest[0] == octets[at]);
        if has_text_at(octets, at) {
            let end = end_of_text(octets, at);
            assert(rest.subrange(1, 1 + rest[0] as int) =~= octets.subrange(at + 1, end));
            assert(rest.skip(1 + rest[0] as int) =~= octets.skip(end));
        }
    }
}

/// Only the method that a client awaits ends its wait well, and gives its
/// arguments. Another method that does not close the connection, a content
/// header and a body are passed over, and a broker that is gone fails the wait.
pub proof fn a_client_waits_for_what_it_awaits(
    awaited: Awaited,
    channel: u16,
    class: u16,
    method: u16,
    octets: Seq<u8>,
    body_size: u64,
)
    ensures
        ({
            let frame = FrameView::Method { channel, class, method, arguments: octets };
            let waiting = StepView::<Seq<u8>> {
                send: Seq::empty(),
                outcome: OutcomeView::Waiting,
            };
            let header = FrameView::Header { channel, class, body_size };
            let body = FrameView::Body { channel, bytes: octets };
            let step = client::awaiting(awaited, Some(frame));
            &&& (channel, class, method) == awaited.address() ==> step == (StepView::<Seq<u8>> {
                send: Seq::empty(),
                outcome: OutcomeView::Done(octets),
            })
            &&& (channel, class, method) != awaited.address() && !(class == 10 && method == 50)
                ==> step == waiting
            &&& client::awaiting(awaited, Some(header)) == waiting
            &&& client::awaiting(awaited, Some(body)) == waiting
            &&& client::awaiting(awaited, None) == (StepView::<Seq<u8>> {
                send: Seq::empty(),
                outcome: OutcomeView::Failed(ErrorView::BrokerClosed { awaited }),
            })
        }),
{
}

/// A broker that closes the connection while a client waits gives a code and a
/// text. Where they are there they are told and the close is answered, whatever
/// channel it came on; where they are not, nothing is sent.
pub proof fn a_close_is_read_octet_by_octet(awaited: Awaited, channel: u16, arguments: Seq<u8>)
    ensures
        ({
            let close = FrameView::Method { channel, class: 10, method: 50, arguments };
            let step = client::awaiting(awaited, Some(close));
            &&& has_text_at(arguments, 2) ==> step == (StepView::<Seq<u8>> {
                send: seq![client::close_ok_frame()],
                outcome: OutcomeView::Failed(
                    ErrorView::BrokerRefused {
                        awaited,
                        code: octets::big_endian_value(arguments.take(2)) as u16,
                        text: text_at(arguments, 2),
                    },
                ),
            })
            &&& !has_text_at(arguments, 2) ==> step == (StepView::<Seq<u8>> {
                send: Seq::empty(),
                outcome: OutcomeView::Failed(ErrorView::ArgumentPastFrame),
            })
        }),
{
    if arguments.len() >= 2 {
        lemma_text_at(arguments, 2);
    }
}

/// While a client connects, a frame that is not the one awaited leaves the
/// handshake where it is, and what is done about it is what a wait for that
/// method does.
pub proof fn a_handshake_waits_for_its_turn(
    connecting: ConnectingView,
    frame: Option<FrameView>,
)
    requires
        !(client::awaiting(connecting.stage.next(), frame).outcome is Done),
    ensures
        ({
            let (next, step) = connecting.on_frame(frame);
            let awaited = client::awaiting(connecting.stage.next(), frame);
            &&& next == connecting
            &&& step.send == awaited.send
            &&& awaited.outcome is Waiting <==> step.outcome is Waiting
            &&& awaited.outcome is Failed ==> step.outcome == OutcomeView::<ClientView>::Failed(
                awaited.outcome->Failed_0,
            )
        }),
{
}

/// A client waits for the methods of the handshake in the protocol's order.
pub proof fn a_handshake_has_its_order(frame_max: u32)
    ensures
        client::Stage::Start.next() is ConnectionStart,
        client::Stage::Tune.next() is ConnectionTune,
        (client::Stage::OpenOk { frame_max }).next() is ConnectionOpenOk,
        (client::Stage::ChannelOpenOk { frame_max }).next() is ChannelOpenOk,
        session::Stage::StartOk.next() is ConnectionStartOk,
        session::Stage::TuneOk.next() is ConnectionTuneOk,
        session::Stage::Open.next() is ConnectionOpen,
{
}

/// What a queue.declare-ok says that its queue holds is the number after the
/// queue's name. One that is too short for it fails.
pub proof fn a_declaration_tells_what_the_queue_holds(arguments: Seq<u8>)
    ensures
        ({
            let ok = FrameView::Method { channel: 1, class: 50, method: 11, arguments };
            let step = client::awaiting(Awaited::QueueDeclareOk, Some(ok)).followed_by(
                |arguments: Seq<u8>| client::messages_held(arguments),
            );
            let end = end_of_text(arguments, 0);
            &&& step.send.len() == 0
            &&& has_text_at(arguments, 0) && end + 4 <= arguments.len() ==> step.outcome
                == OutcomeView::Done(
                octets::big_endian_value(arguments.subrange(end, end + 4)) as u32,
            )
            &&& !(has_text_at(arguments, 0) && end + 4 <= arguments.len()) ==> step.outcome
                == OutcomeView::<u32>::Failed(ErrorView::ArgumentPastFrame)
        }),
{
    lemma_text_at(arguments, 0);
    assert(arguments.skip(0) =~= arguments);
    if has_text_at(arguments, 0) {
        let end = end_of_text(arguments, 0);
        if end + 4 <= arguments.len() {
            assert(arguments.skip(end).take(4) =~= arguments.subrange(end, end + 4));
        }
    }
}

/// A wait that goes on, fails or is answered while a queue is declared or a
/// goodbye said is the wait for its answer, and a goodbye is over with it.
pub proof fn calls_wait_for_their_answers(frame: Option<FrameView>)
    ensures
        ({
            let declaring = client::awaiting(Awaited::QueueDeclareOk, frame);
            let declared = declaring.followed_by(
                |arguments: Seq<u8>| client::messages_held(arguments),
            );
            let closing = client::awaiting(Awaited::ConnectionCloseOk, frame);
            let closed = closing.followed_by(|arguments: Seq<u8>| OutcomeView::Done(()));
            &&& declared.send == declaring.send
            &&& declaring.outcome is Waiting ==> declared.outcome is Waiting
            &&& declaring.outcome matches OutcomeView::Failed(error) ==> declared.outcome
                == OutcomeView::<u32>::Failed(error)
            &&& closed.send == closing.send
            &&& closing.outcome is Waiting <==> closed.outcome is Waiting
            &&& closing.outcome is Done <==> closed.outcome is Done
            &&& closing.outcome matches OutcomeView::Failed(error) ==> closed.outcome
                == OutcomeView::<()>::Failed(error)
        }),
{
}

/// The tag that a basic.consume-ok gives is the client's consumer, and nothing
/// else of the client changes. One without a tag fails and changes nothing, and
/// neither does a frame that the client does not wait for.
pub proof fn a_consumer_has_the_tag_it_is_given(
    client: ClientView,
    arguments: Seq<u8>,
    frame: Option<FrameView>,
)
    ensures
        ({
            let ok = FrameView::Method { channel: 1, class: 60, method: 21, arguments };
            let (next, step) = client.on_consuming(Some(ok));
            let awaited = client::awaiting(Awaited::BasicConsumeOk, frame);
            let (other, passed) = client.on_consuming(frame);
            &&& step.send.len() == 0
            &&& has_text_at(arguments, 0) ==> step.outcome is Done && next == (ClientView {
                consumer_tag: Some(text_at(arguments, 0)),
                ..client
            })
            &&& !has_text_at(arguments, 0) ==> next == client && step.outcome == OutcomeView::<
                (),
            >::Failed(ErrorView::ArgumentPastFrame)
            &&& !(awaited.outcome is Done) ==> other == client && passed.send == awaited.send && (
            awaited.outcome is Waiting <==> passed.outcome is Waiting)
            &&& awaited.outcome matches OutcomeView::Failed(error) ==> passed.outcome
                == OutcomeView::<()>::Failed(error)
        }),
{
    lemma_text_at(arguments, 0);
    assert(arguments.skip(0) =~= arguments);
}

/// Whatever a basic.deliver of a broker names, the client reads all of it: the
/// consumer's tag is passed over, then come the delivery's tag, an octet for
/// whether it was delivered before, which makes no difference, the exchange and
/// the routing key. One that is cut within them fails, and is forgotten.
#[verifier::rlimit(40)]
pub proof fn a_delivery_is_read_octet_by_octet(
    client: ClientView,
    channel: u16,
    arguments: Seq<u8>,
)
    requires
        client.delivery is None,
    ensures
        ({
            let deliver = FrameView::Method { channel, class: 60, method: 60, arguments };
            let (next, step) = client.on_frame(Some(deliver));
            let tag = end_of_text(arguments, 0);
            let exchange = tag + 9;
            let key = end_of_text(arguments, exchange);
            let whole = has_text_at(arguments, 0) && has_text_at(arguments, exchange)
                && has_text_at(arguments, key);
            &&& step.send.len() == 0
            &&& whole ==> step.outcome is Waiting && next == client.expecting(
                Some(
                    DeliveryView {
                        tag: octets::big_endian_value(arguments.subrange(tag, tag + 8)) as u64,
                        exchange: text_at(arguments, exchange),
                        routing_key: text_at(arguments, key),
                        content: IncomingView { size: None, bytes: Seq::empty() },
                    },
                ),
            )
            &&& !whole ==> next == client && step.outcome == OutcomeView::<
                Option<ArrivedView>,
            >::Failed(ErrorView::ArgumentPastFrame)
        }),
{
    lemma_text_at(arguments, 0);
    assert(arguments.skip(0) =~= arguments);
    if has_text_at(arguments, 0) {
        let tag = end_of_text(arguments, 0);
        let exchange = tag + 9;
        if tag + 8 <= arguments.len() {
            let rest = arguments.skip(tag).skip(8);
            assert(arguments.skip(tag).take(8) =~= arguments.subrange(tag, tag + 8));
            if exchange <= arguments.len() {
                assert(rest.skip(1) =~= arguments.skip(exchange));
                lemma_text_at(arguments, exchange);
                if has_text_at(arguments, exchange) {
                    lemma_text_at(arguments, end_of_text(arguments, exchange));
                }
            }
        }
    }
}

/// A basic.deliver that any broker writes, delivered before or not, from
/// whatever exchange, is read as the delivery it names.
#[verifier::rlimit(40)]
pub proof fn deliveries_of_any_broker_are_read(
    tag: Seq<char>,
    delivery_tag: u64,
    redelivered: bool,
    exchange: Seq<char>,
    routing_key: Seq<char>,
    rest: Seq<u8>,
)
    ensures
        client::announced(
            arguments::short_string(tag) + octets::big_endian(delivery_tag as nat, 8)
                + arguments::packed(seq![redelivered]) + arguments::short_string(exchange)
                + arguments::short_string(routing_key) + rest,
        ) == Some(
            (DeliveryView {
                tag: delivery_tag,
                exchange: arguments::carried(exchange),
                routing_key: arguments::carried(routing_key),
                content: IncomingView { size: None, bytes: Seq::empty() },
            }),
        ),
{
    let bits = arguments::packed(seq![redelivered]);
    let number = octets::big_endian(delivery_tag as nat, 8);
    let key = arguments::short_string(routing_key);
    let from = arguments::short_string(exchange);
    let after_bits = from + (key + rest);
    let after_tag = number + (bits + after_bits);
    assert(bits.len() == 1) by {
        arguments::lemma_packed(seq![redelivered]);
    }
    assert(arguments::read_number(after_tag, 8) == Some((delivery_tag as nat, bits + after_bits)))
        by {
        octets::lemma_octet_spans();
        arguments::numbers_round_trip(delivery_tag as nat, 8, bits + after_bits);
    }
    arguments::short_strings_round_trip(routing_key, rest);
    arguments::short_strings_round_trip(exchange, key + rest);
    arguments::short_strings_round_trip(tag, after_tag);
    assert((bits + after_bits).skip(1) =~= after_bits);
    lemma_six(arguments::short_string(tag), number, bits, from, key, rest);
}

/// Six runs of octets, one after the other.
proof fn lemma_six(
    first: Seq<u8>,
    second: Seq<u8>,
    third: Seq<u8>,
    fourth: Seq<u8>,
    fifth: Seq<u8>,
    sixth: Seq<u8>,
)
    ensures
        first + second + third + fourth + fifth + sixth == first + (second + (third + (fourth + (
        fifth + sixth)))),
{
    assert(first + second + third + fourth + fifth + sixth =~= first + (second + (third + (fourth
        + (fifth + sixth)))));
}

/// Pieces of a body in frames of any channel.
pub open spec fn in_frames(channel: u16, pieces: Seq<Seq<u8>>) -> Seq<FrameView> {
    pieces.map_values(|piece: Seq<u8>| FrameView::Body { channel, bytes: piece })
}

/// These pieces make up a body of `size`, and it is not whole before the last.
pub open spec fn make_up(pieces: Seq<Seq<u8>>, size: int) -> bool {
    if pieces.len() == 0 {
        size <= 0
    } else {
        content::joined(pieces.drop_last()).len() < size <= content::joined(pieces).len()
    }
}

/// The first of the pieces that make up a body.
proof fn lemma_make_up(pieces: Seq<Seq<u8>>, size: int)
    requires
        pieces.len() > 0,
        make_up(pieces, size),
    ensures
        size > 0,
        content::joined(pieces) == pieces[0] + content::joined(pieces.skip(1)),
        make_up(pieces.skip(1), size - pieces[0].len()),
        pieces.len() > 1 ==> pieces[0].len() < size,
        pieces.len() == 1 ==> size <= pieces[0].len() && content::joined(pieces) == pieces[0],
{
    let rest = pieces.skip(1);
    if pieces.len() == 1 {
        assert(rest =~= Seq::empty());
        assert(content::joined(rest) =~= Seq::empty());
        assert(pieces[0] + Seq::empty() =~= pieces[0]);
    } else {
        assert(pieces.drop_last().skip(1) =~= rest.drop_last());
        assert(pieces.drop_last()[0] == pieces[0]);
    }
}

/// The frames of a body make a delivery whole, however it is cut.
proof fn lemma_delivery_gathers(
    client: ClientView,
    delivery: DeliveryView,
    channel: u16,
    size: u64,
    pieces: Seq<Seq<u8>>,
)
    requires
        client.delivery == Some(delivery),
        delivery.content.size == Some(size),
        pieces.len() > 0,
        make_up(pieces, size - delivery.content.bytes.len()),
    ensures
        conversation::take_all(client, in_frames(channel, pieces)) == (Taken {
            client: client.expecting(None),
            sent: seq![client::ack_frame(delivery.tag)],
            reports: seq![
                OutcomeView::Done(
                    Some(
                        ArrivedView {
                            origin_uri: client::delivery_origin(client.broker, delivery),
                            bytes: delivery.content.bytes + content::joined(pieces),
                        },
                    ),
                ),
            ],
        }),
    decreases pieces.len(),
{
    let rest = pieces.skip(1);
    let frames = in_frames(channel, pieces);
    let got = delivery.content.bytes + pieces[0];
    lemma_make_up(pieces, size - delivery.content.bytes.len());
    assert(frames.skip(1) =~= in_frames(channel, rest));
    assert(got + content::joined(rest) =~= delivery.content.bytes + content::joined(pieces));
    let (next, step) = client.on_frame(Some(frames[0]));
    if pieces.len() == 1 {
        assert(in_frames(channel, rest) =~= Seq::empty());
        assert(got =~= delivery.content.bytes + content::joined(pieces));
    } else {
        let later = DeliveryView {
            content: IncomingView { size: Some(size), bytes: got },
            ..delivery
        };
        assert(next == client.expecting(Some(later)));
        lemma_delivery_gathers(next, later, channel, size, rest);
    }
    let taken = conversation::take_all(next, frames.skip(1));
    let all = conversation::take_all(client, frames);
    assert(all.reports == conversation::report(step.outcome) + taken.reports);
    assert(all.sent =~= seq![client::ack_frame(delivery.tag)]);
    assert(all.reports =~= seq![
        OutcomeView::Done(
            Some(
                ArrivedView {
                    origin_uri: client::delivery_origin(client.broker, delivery),
                    bytes: delivery.content.bytes + content::joined(pieces),
                },
            ),
        ),
    ]);
}

/// Whatever broker delivers, from whatever exchange, on whatever channel, and
/// however it cuts the body, the client reports the message once, with all that
/// was sent of its body and the broker, the exchange, the routing key and the
/// delivery's tag in its origin, and acknowledges it by that tag.
#[verifier::rlimit(40)]
pub proof fn deliveries_of_any_broker_arrive(
    client: ClientView,
    channels: (u16, u16, u16),
    tag: Seq<char>,
    delivery_tag: u64,
    redelivered: bool,
    exchange: Seq<char>,
    routing_key: Seq<char>,
    class: u16,
    size: u64,
    pieces: Seq<Seq<u8>>,
)
    requires
        client.delivery is None,
        make_up(pieces, size as int),
    ensures
        ({
            let deliver = FrameView::Method {
                channel: channels.0,
                class: 60,
                method: 60,
                arguments: arguments::short_string(tag) + octets::big_endian(
                    delivery_tag as nat,
                    8,
                ) + arguments::packed(seq![redelivered]) + arguments::short_string(exchange)
                    + arguments::short_string(routing_key),
            };
            let header = FrameView::Header { channel: channels.1, class, body_size: size };
            let origin_uri = "amqp://"@ + client.broker + "/"@ + arguments::carried(exchange)
                + "/"@ + arguments::carried(routing_key) + "?delivery-tag="@ + text::decimal(
                delivery_tag as nat,
            );
            conversation::take_all(
                client,
                seq![deliver, header] + in_frames(channels.2, pieces),
            ) == (Taken {
                client,
                sent: seq![client::ack_frame(delivery_tag)],
                reports: seq![
                    OutcomeView::Done(
                        Some(ArrivedView { origin_uri, bytes: content::joined(pieces) }),
                    ),
                ],
            })
        }),
{
    let written = arguments::short_string(tag) + octets::big_endian(delivery_tag as nat, 8)
        + arguments::packed(seq![redelivered]) + arguments::short_string(exchange)
        + arguments::short_string(routing_key);
    let deliver = FrameView::Method {
        channel: channels.0,
        class: 60,
        method: 60,
        arguments: written,
    };
    let header = FrameView::Header { channel: channels.1, class, body_size: size };
    let bodies = in_frames(channels.2, pieces);
    let frames = seq![deliver, header] + bodies;
    let after = seq![header] + bodies;
    deliveries_of_any_broker_are_read(
        tag,
        delivery_tag,
        redelivered,
        exchange,
        routing_key,
        Seq::empty(),
    );
    assert(written + Seq::empty() =~= written);
    let delivery = DeliveryView {
        tag: delivery_tag,
        exchange: arguments::carried(exchange),
        routing_key: arguments::carried(routing_key),
        content: IncomingView { size: None, bytes: Seq::empty() },
    };
    let sized = DeliveryView {
        content: IncomingView { size: Some(size), bytes: Seq::empty() },
        ..delivery
    };
    let announced = client.expecting(Some(delivery));
    assert(client.on_frame(Some(deliver)) == (
        announced,
        StepView::<Option<ArrivedView>>::waiting(),
    ));
    assert(frames.skip(1) =~= after);
    assert(after.skip(1) =~= bodies);
    let (next, step) = announced.on_frame(Some(header));
    if pieces.len() == 0 {
        assert(bodies =~= Seq::empty());
        assert(content::joined(pieces) =~= Seq::empty());
    } else {
        lemma_make_up(pieces, size as int);
        assert(next == client.expecting(Some(sized)));
        lemma_delivery_gathers(next, sized, channels.2, size, pieces);
        assert(Seq::<u8>::empty() + content::joined(pieces) =~= content::joined(pieces));
    }
    reveal_with_fuel(conversation::take_all, 3);
    let taken = conversation::take_all(next, bodies);
    let all = conversation::take_all(client, frames);
    assert(all.sent =~= step.send + taken.sent);
    assert(all.sent =~= seq![client::ack_frame(delivery_tag)]);
    assert(all.reports =~= conversation::report(step.outcome) + taken.reports);
    assert(all.reports =~= seq![
        OutcomeView::Done(
            Some(
                ArrivedView {
                    origin_uri: client::delivery_origin(client.broker, delivery),
                    bytes: content::joined(pieces),
                },
            ),
        ),
    ]);
}

/// Between deliveries a client answers a heartbeat and a close on whatever
/// channel, passes over every other frame that is no delivery, and is done where
/// the broker is gone. None of it changes the client.
pub proof fn a_client_between_deliveries(
    client: ClientView,
    channel: u16,
    class: u16,
    method: u16,
    octets: Seq<u8>,
    body_size: u64,
)
    requires
        client.delivery is None,
    ensures
        ({
            let frame = FrameView::Method { channel, class, method, arguments: octets };
            let header = FrameView::Header { channel, class, body_size };
            let body = FrameView::Body { channel, bytes: octets };
            let waiting = StepView::<Option<ArrivedView>> {
                send: Seq::empty(),
                outcome: OutcomeView::Waiting,
            };
            &&& class == 10 && method == 50 ==> client.on_frame(Some(frame)) == (
                client,
                StepView::<Option<ArrivedView>> {
                    send: seq![client::close_ok_frame()],
                    outcome: OutcomeView::Done(None),
                },
            )
            &&& !(class == 10 && method == 50) && !(class == 60 && method == 60)
                ==> client.on_frame(Some(frame)) == (client, waiting)
            &&& client.on_frame(Some(header)) == (client, waiting)
            &&& client.on_frame(Some(body)) == (client, waiting)
            &&& client.on_frame(None) == (
                client,
                StepView::<Option<ArrivedView>> {
                    send: Seq::empty(),
                    outcome: OutcomeView::Done(None),
                },
            )
        }),
{
}

/// A delivery whose content is broken into fails and is forgotten: without its
/// header as such, within its body as a body that broke off. Nothing is
/// acknowledged.
pub proof fn a_broken_delivery_is_forgotten(
    client: ClientView,
    delivery: DeliveryView,
    frame: Option<FrameView>,
)
    requires
        client.delivery == Some(delivery),
        delivery.content.size is None ==> (frame is None || !(frame->Some_0 is Header)),
        delivery.content.size is Some ==> (frame is None || !(frame->Some_0 is Body)),
    ensures
        ({
            let (next, step) = client.on_frame(frame);
            &&& next == (ClientView { delivery: None, ..client })
            &&& step.send.len() == 0
            &&& delivery.content.size is None ==> step.outcome == OutcomeView::<
                Option<ArrivedView>,
            >::Failed(ErrorView::DeliveryWithoutHeader)
            &&& delivery.content.size is Some ==> step.outcome == OutcomeView::<
                Option<ArrivedView>,
            >::Failed(ErrorView::BodyBrokeOff)
        }),
{
}

/// Only the method whose turn it is will do for a session, on its channel, and
/// gives its arguments. Any other frame is refused as what it is, and so is a
/// client that is gone.
pub proof fn a_session_demands_its_turn(
    awaited: Awaited,
    frame: FrameView,
    arguments: Seq<u8>,
)
    ensures
        ({
            let (channel, class, method) = awaited.address();
            let due = FrameView::Method { channel, class, method, arguments };
            &&& session::demanding(awaited, Some(due)) == Ok::<Seq<u8>, ErrorView>(arguments)
            &&& session::demanding(awaited, None) == Err::<Seq<u8>, ErrorView>(
                ErrorView::ClientClosed { awaited },
            )
            &&& (forall|octets: Seq<u8>|
                frame != (FrameView::Method { channel, class, method, arguments: octets }))
                ==> session::demanding(awaited, Some(frame)) == Err::<Seq<u8>, ErrorView>(
                ErrorView::UnexpectedFrame { frame, awaited },
            )
        }),
{
    let (channel, class, method) = awaited.address();
    match frame {
        FrameView::Method { channel: c, class: cl, method: m, arguments: octets } => {
            if (c, cl, m) == (channel, class, method) {
                assert(frame == (FrameView::Method { channel, class, method, arguments: octets }));
            }
        },
        _ => {},
    }
}

/// A session whose handshake gets a frame out of turn fails, sends nothing and
/// stays where it is.
pub proof fn a_handshake_out_of_turn_fails(accepting: AcceptingView, frame: Option<FrameView>)
    requires
        session::demanding(accepting.stage.next(), frame) is Err,
    ensures
        ({
            let (next, step) = accepting.on_frame(frame);
            &&& next == accepting
            &&& step.send.len() == 0
            &&& step.outcome == OutcomeView::<SessionView>::Failed(
                session::demanding(accepting.stage.next(), frame)->Err_0,
            )
        }),
{
}

/// Whatever table and mechanism a client's connection.start-ok holds, and
/// whatever follows its response, a session takes the user from the response:
/// what stands between the first two NULs of its text, or after the only one,
/// and nobody where there is none. It answers with one connection.tune.
#[verifier::rlimit(40)]
pub proof fn a_session_learns_the_user_of_any_client(
    peer: Seq<char>,
    properties: Seq<u8>,
    mechanism: Seq<char>,
    response: Seq<u8>,
    rest: Seq<u8>,
    before: Seq<char>,
    user: Seq<char>,
    password: Seq<char>,
)
    requires
        properties.len() <= u32::MAX,
        response.len() <= u32::MAX,
        !before.contains('\0'),
        !user.contains('\0'),
    ensures
        ({
            let accepting = AcceptingView::begun(peer);
            let start_ok = FrameView::Method {
                channel: 0,
                class: 10,
                method: 11,
                arguments: arguments::long_string(properties) + arguments::short_string(mechanism)
                    + arguments::long_string(response) + rest,
            };
            let (next, step) = accepting.on_frame(Some(start_ok));
            let said = text::utf8_text(response);
            &&& next.peer == peer
            &&& next.stage is TuneOk
            &&& step.outcome is Waiting
            &&& step.send == seq![session::tune_frame()]
            &&& said == before + seq!['\0'] + user + seq!['\0'] + password ==> next.user == user
            &&& said == before + seq!['\0'] + user ==> next.user == user
            &&& !said.contains('\0') ==> next.user.len() == 0
        }),
{
    let table = arguments::long_string(properties);
    let named = arguments::short_string(mechanism);
    let given = arguments::long_string(response);
    let said = text::utf8_text(response);
    arguments::long_strings_round_trip(properties, named + (given + rest));
    arguments::short_strings_round_trip(mechanism, given + rest);
    arguments::long_strings_round_trip(response, rest);
    assert(table + named + given + rest =~= table + (named + (given + rest)));
    if said == before + seq!['\0'] + user + seq!['\0'] + password {
        let after = user + seq!['\0'] + password;
        assert(said =~= before + seq!['\0'] + after);
        text::lemma_parted_by(before, '\0', after);
        text::lemma_parted_by(user, '\0', password);
    } else if said == before + seq!['\0'] + user {
        text::lemma_parted_by(before, '\0', user);
        text::parts_make_up_the_text(user, '\0');
        user.index_of_first_ensures('\0');
    }
    text::parts_make_up_the_text(said, '\0');
    reveal_strlit("");
    if !said.contains('\0') {
        said.index_of_first_ensures('\0');
    }
}

/// Whatever a connection.tune-ok says, a session waits for the opening, and
/// whatever virtual host is opened, it says that it is and serves its client.
pub proof fn a_session_opens_whatever_is_asked(
    peer: Seq<char>,
    user: Seq<char>,
    arguments: Seq<u8>,
)
    ensures
        ({
            let tuning = AcceptingView { peer, user, stage: session::Stage::TuneOk };
            let opening = AcceptingView { peer, user, stage: session::Stage::Open };
            let tune_ok = FrameView::Method { channel: 0, class: 10, method: 31, arguments };
            let open = FrameView::Method { channel: 0, class: 10, method: 40, arguments };
            let (next, step) = tuning.on_frame(Some(tune_ok));
            let opened = opening.on_frame(Some(open)).1;
            &&& next == opening
            &&& step.send.len() == 0 && step.outcome is Waiting
            &&& opened.send == seq![session::open_ok_frame()]
            &&& opened.outcome == OutcomeView::Done(
                SessionView {
                    peer,
                    user,
                    consumer_tag: None,
                    replaced: None,
                    delivery_tag: 0,
                    publish: None,
                },
            )
        }),
{
}

/// A session's handshake begins with the client's address, nobody named, and
/// the wait for connection.start-ok, and only after the protocol header.
pub proof fn a_session_begins_with_the_protocol_header(
    peer: Seq<char>,
    header: Seq<u8>,
    opening: session::Opening,
)
    requires
        session::opens(peer, header, opening),
    ensures
        opening is Accepted <==> header == seq![0x41u8, 0x4du8, 0x51u8, 0x50u8, 0u8, 0u8, 9u8, 1u8],
        opening matches session::Opening::Accepted { accepting, start }
            ==> accepting.deep_view() == (AcceptingView {
            peer,
            user: Seq::empty(),
            stage: session::Stage::StartOk,
        }) && start.deep_view() == session::start_frame(),
        opening matches session::Opening::Refused { answer, error } ==> answer@ == seq![
            0x41u8,
            0x4du8,
            0x51u8,
            0x50u8,
            0u8,
            0u8,
            9u8,
            1u8,
        ] && error is NotAmqp,
{
    assert(frame::PROTOCOL_HEADER@ =~= seq![
        0x41u8,
        0x4du8,
        0x51u8,
        0x50u8,
        0u8,
        0u8,
        9u8,
        1u8,
    ]);
}

/// A queue.declare of any client is read octet by octet: two octets are passed
/// over, then comes the queue's name. It is reported and answered on the channel
/// it came on, and one that is cut within the name fails. Either way the session
/// stays as it is.
pub proof fn a_declaration_is_read_octet_by_octet(
    session: SessionView,
    channel: u16,
    arguments: Seq<u8>,
)
    requires
        session.publish is None,
    ensures
        ({
            let declare = FrameView::Method { channel, class: 50, method: 10, arguments };
            let (next, step) = session.on_frame(Some(declare));
            let queue = text_at(arguments, 2);
            &&& next == session.settled()
            &&& has_text_at(arguments, 2) ==> step == (StepView::<Option<EventView>> {
                send: seq![session::declare_ok_frame(channel, queue)],
                outcome: OutcomeView::Done(Some(EventView::Declared(queue))),
            })
            &&& !has_text_at(arguments, 2) ==> step == (StepView::<Option<EventView>> {
                send: Seq::empty(),
                outcome: OutcomeView::Failed(ErrorView::ArgumentPastFrame),
            })
        }),
{
    if arguments.len() >= 2 {
        lemma_text_at(arguments, 2);
    }
}

/// A basic.consume of any client is read octet by octet: two octets are passed
/// over, then come the queue's name and the tag asked for. The consumer has that
/// tag, or the session's own where none is asked for, and is confirmed on the
/// channel it came on. One that is cut within them fails and changes nothing.
pub proof fn a_consumer_is_read_octet_by_octet(
    session: SessionView,
    channel: u16,
    arguments: Seq<u8>,
)
    requires
        session.publish is None,
    ensures
        ({
            let consume = FrameView::Method { channel, class: 60, method: 20, arguments };
            let (next, step) = session.on_frame(Some(consume));
            let at = end_of_text(arguments, 2);
            let whole = has_text_at(arguments, 2) && has_text_at(arguments, at);
            let asked = text_at(arguments, at);
            let tag = if asked.len() == 0 {
                "xmip.1"@
            } else {
                asked
            };
            &&& whole ==> next == (SessionView {
                consumer_tag: Some(tag),
                replaced: Some(session.consumer_tag),
                ..session
            }) && step == (StepView::<Option<EventView>> {
                send: seq![session::consume_ok_frame(channel, tag)],
                outcome: OutcomeView::Done(Some(EventView::Consuming(text_at(arguments, 2)))),
            })
            &&& !whole ==> next == session.settled() && step == (StepView::<Option<EventView>> {
                send: Seq::empty(),
                outcome: OutcomeView::Failed(ErrorView::ArgumentPastFrame),
            })
        }),
{
    if arguments.len() >= 2 {
        lemma_text_at(arguments, 2);
        if has_text_at(arguments, 2) {
            lemma_text_at(arguments, end_of_text(arguments, 2));
        }
    }
}

/// A basic.publish of any client is read octet by octet: two octets are passed
/// over, then come the exchange and the routing key, whatever options follow.
/// Its content is awaited. One that is cut within them fails and changes
/// nothing.
pub proof fn a_publish_is_read_octet_by_octet(
    session: SessionView,
    channel: u16,
    arguments: Seq<u8>,
)
    requires
        session.publish is None,
    ensures
        ({
            let publish = FrameView::Method { channel, class: 60, method: 40, arguments };
            let (next, step) = session.on_frame(Some(publish));
            let at = end_of_text(arguments, 2);
            let whole = has_text_at(arguments, 2) && has_text_at(arguments, at);
            &&& step.send.len() == 0
            &&& whole ==> step.outcome is Waiting && next == (SessionView {
                replaced: None,
                publish: Some(
                    PublishView {
                        exchange: text_at(arguments, 2),
                        routing_key: text_at(arguments, at),
                        content: IncomingView { size: None, bytes: Seq::empty() },
                    },
                ),
                ..session
            })
            &&& !whole ==> next == session.settled() && step.outcome == OutcomeView::<
                Option<EventView>,
            >::Failed(ErrorView::ArgumentPastFrame)
        }),
{
    if arguments.len() >= 2 {
        lemma_text_at(arguments, 2);
        if has_text_at(arguments, 2) {
            lemma_text_at(arguments, end_of_text(arguments, 2));
        }
    }
}

/// Between publishes a session opens and closes channels where they are asked
/// for, takes acknowledgements in silence, answers a close on whatever channel
/// and is done, is done where the client is gone, and passes over content that
/// nothing announced. Every other method is refused by its number, without an
/// answer. None of it changes the session.
pub proof fn a_session_between_publishes(
    session: SessionView,
    channel: u16,
    class: u16,
    method: u16,
    octets: Seq<u8>,
    body_size: u64,
)
    requires
        session.publish is None,
        !(class == 50 && method == 10) && !(class == 60 && (method == 20 || method == 40)),
    ensures
        ({
            let frame = FrameView::Method { channel, class, method, arguments: octets };
            let (next, step) = session.on_frame(Some(frame));
            let waiting = StepView::<Option<EventView>> {
                send: Seq::empty(),
                outcome: OutcomeView::Waiting,
            };
            let header = FrameView::Header { channel, class, body_size };
            let body = FrameView::Body { channel, bytes: octets };
            &&& next == session.settled()
            &&& class == 20 && method == 10 ==> step == (StepView::<Option<EventView>> {
                send: seq![session::channel_open_ok_frame(channel)],
                outcome: OutcomeView::Waiting,
            })
            &&& class == 20 && method == 40 ==> step == (StepView::<Option<EventView>> {
                send: seq![session::channel_close_ok_frame(channel)],
                outcome: OutcomeView::Waiting,
            })
            &&& class == 60 && method == 80 ==> step == waiting
            &&& class == 10 && method == 50 ==> step == (StepView::<Option<EventView>> {
                send: seq![client::close_ok_frame()],
                outcome: OutcomeView::Done(None),
            })
            &&& !(class == 20 && (method == 10 || method == 40)) && !(class == 60 && method == 80)
                && !(class == 10 && method == 50) ==> step == (StepView::<Option<EventView>> {
                send: Seq::empty(),
                outcome: OutcomeView::Failed(ErrorView::NotServed { class, method }),
            })
            &&& session.on_frame(Some(header)) == (session.settled(), waiting)
            &&& session.on_frame(Some(body)) == (session.settled(), waiting)
            &&& session.on_frame(None) == (
                session.settled(),
                StepView::<Option<EventView>> {
                    send: Seq::empty(),
                    outcome: OutcomeView::Done(None),
                },
            )
        }),
{
}

/// A publish whose content is broken into fails and is forgotten: without its
/// header as such, within its body as a body that broke off. Nothing is sent.
pub proof fn a_broken_publish_is_forgotten(
    session: SessionView,
    publish: PublishView,
    frame: Option<FrameView>,
)
    requires
        session.publish == Some(publish),
        publish.content.size is None ==> (frame is None || !(frame->Some_0 is Header)),
        publish.content.size is Some ==> (frame is None || !(frame->Some_0 is Body)),
    ensures
        ({
            let (next, step) = session.on_frame(frame);
            &&& next == (SessionView { publish: None, replaced: None, ..session })
            &&& step.send.len() == 0
            &&& publish.content.size is None ==> step.outcome == OutcomeView::<
                Option<EventView>,
            >::Failed(ErrorView::PublishWithoutHeader)
            &&& publish.content.size is Some ==> step.outcome == OutcomeView::<
                Option<EventView>,
            >::Failed(ErrorView::BodyBrokeOff)
        }),
{
}

/// The frames of a body make a publish whole, however it is cut.
proof fn lemma_publish_gathers(
    session: SessionView,
    publish: PublishView,
    channel: u16,
    size: u64,
    pieces: Seq<Seq<u8>>,
)
    requires
        session.publish == Some(publish),
        publish.content.size == Some(size),
        pieces.len() > 0,
        make_up(pieces, size - publish.content.bytes.len()),
    ensures
        conversation::serve_all(session, in_frames(channel, pieces)) == (Served {
            session: session.settled().expecting(None),
            sent: Seq::empty(),
            reports: seq![
                OutcomeView::Done(
                    Some(
                        EventView::Published(
                            ArrivedView {
                                origin_uri: session::publish_origin(session.peer, publish),
                                bytes: publish.content.bytes + content::joined(pieces),
                            },
                        ),
                    ),
                ),
            ],
        }),
    decreases pieces.len(),
{
    let rest = pieces.skip(1);
    let frames = in_frames(channel, pieces);
    let got = publish.content.bytes + pieces[0];
    lemma_make_up(pieces, size - publish.content.bytes.len());
    assert(frames.skip(1) =~= in_frames(channel, rest));
    assert(got + content::joined(rest) =~= publish.content.bytes + content::joined(pieces));
    let (next, step) = session.on_frame(Some(frames[0]));
    if pieces.len() == 1 {
        assert(in_frames(channel, rest) =~= Seq::empty());
        assert(got =~= publish.content.bytes + content::joined(pieces));
    } else {
        let later = PublishView {
            content: IncomingView { size: Some(size), bytes: got },
            ..publish
        };
        assert(next == session.settled().expecting(Some(later)));
        lemma_publish_gathers(next, later, channel, size, rest);
    }
    let served = conversation::serve_all(next, frames.skip(1));
    let all = conversation::serve_all(session, frames);
    assert(all.reports == conversation::report(step.outcome) + served.reports);
    assert(all.sent =~= Seq::empty());
    assert(all.reports =~= seq![
        OutcomeView::Done(
            Some(
                EventView::Published(
                    ArrivedView {
                        origin_uri: session::publish_origin(session.peer, publish),
                        bytes: publish.content.bytes + content::joined(pieces),
                    },
                ),
            ),
        ),
    ]);
}

/// Whatever client publishes, on whatever channel, with whatever options, and
/// however it cuts the body, the session reports the message once, with all
/// that was sent of its body and the client, the exchange and the routing key in
/// its origin, sends nothing about it and stays as it is.
#[verifier::rlimit(40)]
pub proof fn publishes_of_any_client_arrive(
    session: SessionView,
    channels: (u16, u16, u16),
    ticket: u16,
    exchange: Seq<char>,
    routing_key: Seq<char>,
    options: Seq<u8>,
    class: u16,
    size: u64,
    pieces: Seq<Seq<u8>>,
)
    requires
        session.publish is None,
        make_up(pieces, size as int),
    ensures
        ({
            let publish = FrameView::Method {
                channel: channels.0,
                class: 60,
                method: 40,
                arguments: octets::big_endian(ticket as nat, 2) + arguments::short_string(exchange)
                    + arguments::short_string(routing_key) + options,
            };
            let header = FrameView::Header { channel: channels.1, class, body_size: size };
            let origin_uri = "amqp://"@ + session.peer + "/"@ + arguments::carried(exchange)
                + "/"@ + arguments::carried(routing_key);
            conversation::serve_all(
                session,
                seq![publish, header] + in_frames(channels.2, pieces),
            ) == (Served {
                session: session.settled(),
                sent: Seq::empty(),
                reports: seq![
                    OutcomeView::Done(
                        Some(
                            EventView::Published(
                                ArrivedView { origin_uri, bytes: content::joined(pieces) },
                            ),
                        ),
                    ),
                ],
            })
        }),
{
    let number = octets::big_endian(ticket as nat, 2);
    let from = arguments::short_string(exchange);
    let key = arguments::short_string(routing_key);
    let method = FrameView::Method {
        channel: channels.0,
        class: 60,
        method: 40,
        arguments: number + from + key + options,
    };
    let header = FrameView::Header { channel: channels.1, class, body_size: size };
    let bodies = in_frames(channels.2, pieces);
    let frames = seq![method, header] + bodies;
    let after = seq![header] + bodies;
    octets::lemma_octet_spans();
    arguments::short_strings_round_trip(routing_key, options);
    arguments::short_strings_round_trip(exchange, key + options);
    arguments::numbers_round_trip(ticket as nat, 2, from + (key + options));
    assert(number + from + key + options =~= number + (from + (key + options)));
    let publish = PublishView {
        exchange: arguments::carried(exchange),
        routing_key: arguments::carried(routing_key),
        content: IncomingView { size: None, bytes: Seq::empty() },
    };
    let sized = PublishView {
        content: IncomingView { size: Some(size), bytes: Seq::empty() },
        ..publish
    };
    let announced = session.settled().expecting(Some(publish));
    assert(session.on_frame(Some(method)) == (
        announced,
        StepView::<Option<EventView>>::waiting(),
    ));
    assert(frames.skip(1) =~= after);
    assert(after.skip(1) =~= bodies);
    let (next, step) = announced.on_frame(Some(header));
    if pieces.len() == 0 {
        assert(bodies =~= Seq::empty());
        assert(content::joined(pieces) =~= Seq::empty());
    } else {
        lemma_make_up(pieces, size as int);
        assert(next == session.settled().expecting(Some(sized)));
        lemma_publish_gathers(next, sized, channels.2, size, pieces);
        assert(Seq::<u8>::empty() + content::joined(pieces) =~= content::joined(pieces));
    }
    reveal_with_fuel(conversation::serve_all, 3);
    let served = conversation::serve_all(next, bodies);
    let all = conversation::serve_all(session, frames);
    assert(all.sent =~= Seq::empty());
    assert(all.reports =~= conversation::report(step.outcome) + served.reports);
    assert(all.reports =~= seq![
        OutcomeView::Done(
            Some(
                EventView::Published(
                    ArrivedView {
                        origin_uri: session::publish_origin(session.peer, publish),
                        bytes: content::joined(pieces),
                    },
                ),
            ),
        ),
    ]);
}

/// What calls for the next publish come to over several frames: how they left
/// the session, what was sent, and what was reported.
pub struct Handed {
    pub session: SessionView,
    pub sent: Seq<FrameView>,
    pub reports: Seq<OutcomeView<Option<ArrivedView>>>,
}

/// A session that is asked for publishes and given several frames, one after
/// the other, and whose answers are all sent.
pub open spec fn hand_up_all(session: SessionView, frames: Seq<FrameView>) -> Handed
    decreases frames.len(),
{
    if frames.len() == 0 {
        Handed { session: session.settled(), sent: Seq::empty(), reports: Seq::empty() }
    } else {
        let (next, event) = session.on_frame(Some(frames[0]));
        let step = event.followed_by(|event: Option<EventView>| session::publish_in(event));
        let rest = hand_up_all(next, frames.skip(1));
        Handed {
            session: rest.session,
            sent: step.send + rest.sent,
            reports: conversation::report(step.outcome) + rest.reports,
        }
    }
}

/// Of what a session reported, the publishes, the failures and the closes;
/// declarations and consumers are left out.
pub open spec fn publishes_among(
    reports: Seq<OutcomeView<Option<EventView>>>,
) -> Seq<OutcomeView<Option<ArrivedView>>>
    decreases reports.len(),
{
    if reports.len() == 0 {
        Seq::empty()
    } else {
        let rest = publishes_among(reports.skip(1));
        match reports[0] {
            OutcomeView::Done(Some(EventView::Published(arrived))) => seq![
                OutcomeView::Done(Some(arrived)),
            ] + rest,
            OutcomeView::Done(None) => seq![OutcomeView::Done(None)] + rest,
            OutcomeView::Failed(error) => seq![OutcomeView::Failed(error)] + rest,
            _ => rest,
        }
    }
}

/// Whatever frames come, calls for the next publish hand up exactly the
/// publishes among the events, in their order, whatever declarations and
/// consumers stand between them, and are done without one exactly where the
/// client closed. They send the same answers and leave the session the same.
pub proof fn publishes_are_handed_up_among_events(
    session: SessionView,
    frames: Seq<FrameView>,
)
    ensures
        ({
            let served = conversation::serve_all(session, frames);
            hand_up_all(session, frames) == (Handed {
                session: served.session,
                sent: served.sent,
                reports: publishes_among(served.reports),
            })
        }),
    decreases frames.len(),
{
    if frames.len() > 0 {
        let (next, event) = session.on_frame(Some(frames[0]));
        let step = event.followed_by(|event: Option<EventView>| session::publish_in(event));
        let rest = conversation::serve_all(next, frames.skip(1));
        let all = conversation::serve_all(session, frames);
        publishes_are_handed_up_among_events(next, frames.skip(1));
        if event.outcome is Waiting {
            assert(all.reports =~= rest.reports);
        } else {
            assert(all.reports =~= seq![event.outcome] + rest.reports);
            assert(all.reports.skip(1) =~= rest.reports);
        }
        assert(conversation::report(step.outcome) + publishes_among(rest.reports)
            =~= publishes_among(all.reports));
    }
}

/// A frame whose event is a declaration or a consumer is answered on the way to
/// a publish, and the call goes on. The call is done without a publish only
/// where the client closed, and fails only as the event did.
pub proof fn other_events_are_answered_on_the_way(
    session: SessionView,
    frame: Option<FrameView>,
)
    ensures
        ({
            let event = session.on_frame(frame).1;
            let step = event.followed_by(|event: Option<EventView>| session::publish_in(event));
            &&& step.send == event.send
            &&& event.outcome matches OutcomeView::Done(Some(EventView::Declared(_)))
                ==> step.outcome is Waiting
            &&& event.outcome matches OutcomeView::Done(Some(EventView::Consuming(_)))
                ==> step.outcome is Waiting
            &&& event.outcome is Waiting ==> step.outcome is Waiting
            &&& event.outcome matches OutcomeView::Done(Some(EventView::Published(arrived)))
                ==> step.outcome == OutcomeView::Done(Some(arrived))
            &&& step.outcome == OutcomeView::<Option<ArrivedView>>::Done(None) <==> event.outcome
                == OutcomeView::<Option<EventView>>::Done(None)
            &&& event.outcome matches OutcomeView::Failed(error) ==> step.outcome
                == OutcomeView::<Option<ArrivedView>>::Failed(error)
        }),
{
}

/// What is on its way, a consumer, an answer that is sent or could not be, and a
/// delivery each change what they are about, and nothing else.
pub proof fn nothing_else_changes(
    session: SessionView,
    client: ClientView,
    publish: Option<PublishView>,
    delivery: Option<DeliveryView>,
    tag: Seq<char>,
)
    ensures
        client.expecting(delivery) == (ClientView { delivery, ..client }),
        session.expecting(publish) == (SessionView { publish, ..session }),
        session.settled() == (SessionView { replaced: None, ..session }),
        session.serving(tag).unanswered() == session.settled(),
        session.settled().unanswered() == session.settled(),
        session.delivery_tag < u64::MAX ==> session.delivering() == (SessionView {
            replaced: None,
            delivery_tag: (session.delivery_tag + 1) as u64,
            ..session
        }),
{
}

/// The length that four octets at `at` spell.
pub open spec fn length_at(octets: Seq<u8>, at: int) -> int {
    octets::big_endian_value(octets.subrange(at, at + 4)) as int
}

/// `octets` hold a whole long string whose length stands at `at`.
pub open spec fn has_long_at(octets: Seq<u8>, at: int) -> bool {
    at + 4 <= octets.len() && at + 4 + length_at(octets, at) <= octets.len()
}

/// Where the long string whose length stands at `at` ends.
pub open spec fn end_of_long(octets: Seq<u8>, at: int) -> int {
    at + 4 + length_at(octets, at)
}

/// A long string that is read from `at` on.
proof fn lemma_long_at(octets: Seq<u8>, at: int)
    requires
        0 <= at <= octets.len(),
    ensures
        has_long_at(octets, at) ==> arguments::read_long_string(octets.skip(at)) == Some(
            (
                octets.subrange(at + 4, end_of_long(octets, at)),
                octets.skip(end_of_long(octets, at)),
            ),
        ),
        !has_long_at(octets, at) ==> arguments::read_long_string(octets.skip(at)) is None,
{
    let rest = octets.skip(at);
    if at + 4 <= octets.len() {
        let length = length_at(octets, at);
        assert(rest.take(4) =~= octets.subrange(at, at + 4));
        assert(rest.skip(4) =~= octets.skip(at + 4));
        if has_long_at(octets, at) {
            assert(rest.skip(4).take(length) =~= octets.subrange(at + 4, at + 4 + length));
            assert(rest.skip(4).skip(length) =~= octets.skip(at + 4 + length));
        }
    }
}

/// A connection.start-ok is read octet by octet: a table and a mechanism are
/// passed over, then comes the response. One that is cut within them fails, and
/// the handshake stays where it is; any other is answered with one
/// connection.tune.
pub proof fn a_response_is_read_octet_by_octet(accepting: AcceptingView, arguments: Seq<u8>)
    requires
        accepting.stage is StartOk,
    ensures
        ({
            let start_ok = FrameView::Method { channel: 0, class: 10, method: 11, arguments };
            let (next, step) = accepting.on_frame(Some(start_ok));
            let mechanism = end_of_long(arguments, 0);
            let response = end_of_text(arguments, mechanism);
            let whole = has_long_at(arguments, 0) && has_text_at(arguments, mechanism)
                && has_long_at(arguments, response);
            let said = text::utf8_text(
                arguments.subrange(response + 4, end_of_long(arguments, response)),
            );
            &&& whole ==> next == (AcceptingView {
                user: session::user_in(said),
                stage: session::Stage::TuneOk,
                ..accepting
            }) && step == (StepView::<SessionView> {
                send: seq![session::tune_frame()],
                outcome: OutcomeView::Waiting,
            })
            &&& !whole ==> next == accepting && step == (StepView::<SessionView> {
                send: Seq::empty(),
                outcome: OutcomeView::Failed(ErrorView::ArgumentPastFrame),
            })
        }),
{
    lemma_long_at(arguments, 0);
    assert(arguments.skip(0) =~= arguments);
    if has_long_at(arguments, 0) {
        let mechanism = end_of_long(arguments, 0);
        lemma_text_at(arguments, mechanism);
        if has_text_at(arguments, mechanism) {
            lemma_long_at(arguments, end_of_text(arguments, mechanism));
        }
    }
}

} // verus!

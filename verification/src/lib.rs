//! Streams that arrive as AMQP messages. One basic.publish or basic.deliver
//! is one Stream, the exchange and routing key kept beside it.
//!
//! AMQP 0-9-1 is the enterprise broker's protocol — `RabbitMQ` and its kin,
//! on port 5672: exchanges route by key to queues, consumers acknowledge. A
//! Receive Location connects, declares its queue and consumes it,
//! acknowledging each delivery once it is a Stream; a Send Location connects
//! and publishes to an exchange under a routing key. Either may instead
//! accept clients directly through [`Session`], one client's worth of broker
//! on one channel — the shape a producer that publishes straight to Xmip
//! needs, and no more.
//!
//! What is here is the handshake with PLAIN, one channel, durable queues,
//! publish, consume and acknowledge. Publisher confirms, transactions, TLS
//! and AMQP 1.0 — a different protocol under the same name — are the next
//! layers.
//!
//! The origin URI carries what the frame knew:
//! `amqp://broker/exchange/routing.key?delivery-tag=1`.
//!
//! The library reads no socket. It turns octets into frames and frames into
//! octets, and each call that takes several frames is a machine: it is given
//! the frames one by one, and says what to send and when it is done.
use std::time::Duration;

use vstd::prelude::*;

pub mod arguments;
pub mod client;
pub mod content;
pub mod conversation;
pub mod error;
pub mod fields;
pub mod frame;
pub mod method;
pub mod octets;
pub mod peers;
pub mod reader;
pub mod session;
pub mod step;
pub mod text;
pub mod writer;

pub use crate::client::{Client, Connecting, Login, LoginView};
pub use crate::content::{Arrived, ArrivedView};
pub use crate::error::{Error, ErrorView};
pub use crate::frame::{Frame, FrameView};
pub use crate::session::{Accepting, Event, EventView, Opening, Session};
pub use crate::step::{Outcome, OutcomeView, Step, StepView};

use crate::client::{ConnectingView, Stage};
use crate::session::PublishView;
use crate::text::{split_once, strip_prefix};

verus! {

/// Which ways a transport carries Streams.
#[derive(Clone, Copy, Debug, PartialEq, Eq)]
pub enum Directions {
    Receive,
    Send,
    Both,
}

/// What a Location speaks AMQP with: where the broker is, what to publish
/// under and what to consume, whom to log in as, and how long to wait.
pub struct AmqpTransport {
    broker: String,
    exchange: String,
    routing_key: String,
    queue: String,
    login: Login,
    timeout: Option<Duration>,
}

/// What a Location speaks AMQP with.
pub struct AmqpTransportView {
    pub broker: Seq<char>,
    pub exchange: Seq<char>,
    pub routing_key: Seq<char>,
    pub queue: Seq<char>,
    pub login: LoginView,
    pub timeout: Option<Duration>,
}

impl DeepView for AmqpTransport {
    type V = AmqpTransportView;

    closed spec fn deep_view(&self) -> AmqpTransportView {
        AmqpTransportView {
            broker: self.broker@,
            exchange: self.exchange@,
            routing_key: self.routing_key@,
            queue: self.queue@,
            login: self.login.deep_view(),
            timeout: self.timeout,
        }
    }
}

impl AmqpTransportView {
    /// The broker, the exchange and the routing key that a target names:
    /// `amqp://broker/exchange/key` names all three, a path with one part is a
    /// key on the default exchange, and an empty key is this transport's own.
    /// What does not start with `amqp://` is a key on this transport's broker
    /// and exchange.
    pub open spec fn resolved(self, target: Seq<char>) -> (Seq<char>, Seq<char>, Seq<char>) {
        match text::without_prefix(target, "amqp://"@) {
            None => (self.broker, self.exchange, target),
            Some(address) => {
                let (broker, path) = match text::parted(address, '/') {
                    Some(parts) => parts,
                    None => (address, ""@),
                };
                let (exchange, key) = match text::parted(path, '/') {
                    Some(parts) => parts,
                    None => (""@, path),
                };
                (
                    broker,
                    exchange,
                    if key.len() == 0 {
                        self.routing_key
                    } else {
                        key
                    },
                )
            },
        }
    }
}

/// A target that names a broker, an exchange and a key is resolved to them, on
/// whichever transport. Neither the broker nor the exchange may hold the `/`
/// that parts them.
pub proof fn a_full_target_names_itself(
    transport: AmqpTransportView,
    broker: Seq<char>,
    exchange: Seq<char>,
    key: Seq<char>,
)
    requires
        !broker.contains('/'),
        !exchange.contains('/'),
    ensures
        transport.resolved("amqp://"@ + broker + "/"@ + exchange + "/"@ + key) == (
            broker,
            exchange,
            if key.len() == 0 {
                transport.routing_key
            } else {
                key
            },
        ),
{
    let target = "amqp://"@ + broker + "/"@ + exchange + "/"@ + key;
    let path = exchange + "/"@ + key;
    let address = broker + "/"@ + path;
    reveal_strlit("/");
    assert(target.take("amqp://"@.len() as int) =~= "amqp://"@);
    assert(target.skip("amqp://"@.len() as int) =~= address);
    text::lemma_parted_by(broker, '/', path);
    assert(address =~= broker + seq!['/'] + path);
    text::lemma_parted_by(exchange, '/', key);
    assert(path =~= exchange + seq!['/'] + key);
}

/// A target that does not start with `amqp://` is a routing key, whatever it
/// holds, on the transport's own broker and exchange.
pub proof fn any_other_target_is_a_key(transport: AmqpTransportView, target: Seq<char>)
    requires
        !"amqp://"@.is_prefix_of(target),
    ensures
        transport.resolved(target) == (transport.broker, transport.exchange, target),
{
    text::prefixes_are_stripped(target, "amqp://"@);
    if text::without_prefix(target, "amqp://"@) is Some {
        assert("amqp://"@ =~= target.subrange(0, "amqp://"@.len() as int));
    }
}

/// A target that names a broker and a key names the default exchange.
pub proof fn a_target_without_an_exchange_names_the_default(
    transport: AmqpTransportView,
    broker: Seq<char>,
    key: Seq<char>,
)
    requires
        !broker.contains('/'),
        !key.contains('/'),
    ensures
        ({
            let named = if key.len() == 0 {
                transport.routing_key
            } else {
                key
            };
            &&& transport.resolved("amqp://"@ + broker + "/"@ + key) == (
                broker,
                Seq::<char>::empty(),
                named,
            )
            &&& transport.resolved("amqp://"@ + broker) == (
                broker,
                Seq::<char>::empty(),
                transport.routing_key,
            )
        }),
{
    reveal_strlit("/");
    reveal_strlit("");
    assert(""@ =~= Seq::empty());
    let target = "amqp://"@ + broker + "/"@ + key;
    let address = broker + "/"@ + key;
    assert(target.take("amqp://"@.len() as int) =~= "amqp://"@);
    assert(target.skip("amqp://"@.len() as int) =~= address);
    text::lemma_parted_by(broker, '/', key);
    assert(address =~= broker + seq!['/'] + key);
    key.index_of_first_ensures('/');
    broker.index_of_first_ensures('/');
    Seq::<char>::empty().index_of_first_ensures('/');
    let short = "amqp://"@ + broker;
    assert(short.take("amqp://"@.len() as int) =~= "amqp://"@);
    assert(short.skip("amqp://"@.len() as int) =~= broker);
}

/// Where a message that was published here came from is a target: it names the
/// client, the exchange and the routing key.
pub proof fn an_origin_is_a_target(
    transport: AmqpTransportView,
    peer: Seq<char>,
    publish: PublishView,
)
    requires
        !peer.contains('/'),
        !publish.exchange.contains('/'),
        publish.routing_key.len() > 0,
    ensures
        transport.resolved(session::publish_origin(peer, publish)) == (
            peer,
            publish.exchange,
            publish.routing_key,
        ),
{
    a_full_target_names_itself(transport, peer, publish.exchange, publish.routing_key);
}

impl AmqpTransport {
    /// Speak to the broker at `broker`: consume `queue`, publish to
    /// `exchange` under `routing_key`.
    #[must_use]
    pub fn new(broker: &str, exchange: &str, routing_key: &str, queue: &str) -> (transport: Self)
        ensures
            transport.deep_view() == (AmqpTransportView {
                broker: broker@,
                exchange: exchange@,
                routing_key: routing_key@,
                queue: queue@,
                login: LoginView { user: "guest"@, password: "guest"@, virtual_host: "/"@ },
                timeout: None,
            }),
    {
        Self {
            broker: broker.to_string(),
            exchange: exchange.to_string(),
            routing_key: routing_key.to_string(),
            queue: queue.to_string(),
            login: Login::default(),
            timeout: None,
        }
    }

    /// Present these when connecting.
    #[must_use]
    pub fn logging_in(self, login: Login) -> (transport: Self)
        ensures
            transport.deep_view() == (AmqpTransportView {
                login: login.deep_view(),
                ..self.deep_view()
            }),
    {
        Self { login, ..self }
    }

    /// Give up on a peer that stops mid-frame, and stop receiving when the
    /// broker has been quiet this long.
    #[must_use]
    pub fn timing_out_after(self, timeout: Duration) -> (transport: Self)
        ensures
            transport.deep_view() == (AmqpTransportView {
                timeout: Some(timeout),
                ..self.deep_view()
            }),
    {
        Self { timeout: Some(timeout), ..self }
    }

    /// Where the broker is.
    #[must_use]
    pub fn broker(&self) -> (broker: &str)
        ensures
            broker@ == self.deep_view().broker,
    {
        self.broker.as_str()
    }

    /// What to consume.
    #[must_use]
    pub fn queue(&self) -> (queue: &str)
        ensures
            queue@ == self.deep_view().queue,
    {
        self.queue.as_str()
    }

    /// How long to wait for a peer.
    #[must_use]
    pub fn timeout(&self) -> (timeout: Option<Duration>)
        ensures
            timeout == self.deep_view().timeout,
    {
        self.timeout
    }

    /// Begin a connection to this transport's broker.
    #[must_use]
    pub fn connect(&self) -> (begun: (Connecting, [u8; 8]))
        ensures
            begun.0.deep_view() == (ConnectingView {
                broker: self.deep_view().broker,
                login: self.deep_view().login,
                stage: Stage::Start,
            }),
            begun.1@ == frame::PROTOCOL_HEADER@,
    {
        self.connect_to(self.broker.as_str())
    }

    /// Begin a connection to `broker`, with this transport's login.
    #[must_use]
    pub fn connect_to(&self, broker: &str) -> (begun: (Connecting, [u8; 8]))
        ensures
            begun.0.deep_view() == (ConnectingView {
                broker: broker@,
                login: self.deep_view().login,
                stage: Stage::Start,
            }),
            begun.1@ == frame::PROTOCOL_HEADER@,
    {
        Client::connect(broker, &self.login)
    }

    /// Accept the client at `peer`, which sent `header` first.
    #[must_use]
    pub fn accept_one(&self, peer: &str, header: &[u8; 8]) -> (opening: Opening)
        ensures
            session::opens(peer@, header@, opening),
    {
        Session::accept(peer, header)
    }

    /// Where a target names the broker, exchange and key itself —
    /// `amqp://host:5672/exchange/routing.key` — or is a routing key alone
    /// on this transport's broker and exchange.
    #[must_use]
    pub fn resolve<'a>(&'a self, target: &'a str) -> (named: (&'a str, &'a str, &'a str))
        ensures
            (named.0@, named.1@, named.2@) == self.deep_view().resolved(target@),
    {
        let rest = match strip_prefix(target, "amqp://") {
            Some(rest) => rest,
            None => return (self.broker.as_str(), self.exchange.as_str(), target),
        };
        let (broker, rest) = match split_once(rest, '/') {
            Some(parts) => parts,
            None => (rest, ""),
        };
        let (exchange, key) = match split_once(rest, '/') {
            Some(parts) => parts,
            None => ("", rest),
        };
        if key.unicode_len() == 0 {
            (broker, exchange, self.routing_key.as_str())
        } else {
            (broker, exchange, key)
        }
    }

    /// The name of this transport.
    #[must_use]
    pub fn name(&self) -> (name: &'static str)
        ensures
            name@ == "amqp"@,
    {
        "amqp"
    }

    /// It carries Streams both ways.
    #[must_use]
    pub fn directions(&self) -> (directions: Directions)
        ensures
            directions == Directions::Both,
    {
        Directions::Both
    }
}

/// Whether to go on receiving.
#[derive(Clone, Debug, PartialEq, Eq)]
pub enum Verdict {
    /// Go on to the next delivery.
    More,
    /// What has arrived is all.
    Enough,
    /// Nothing is received: this went wrong.
    Failed(Error),
}

/// What is received while a queue is consumed.
pub struct Receiving {
    arrived: Vec<Arrived>,
}

impl DeepView for Receiving {
    type V = Seq<ArrivedView>;

    closed spec fn deep_view(&self) -> Seq<ArrivedView> {
        self.arrived.deep_view()
    }
}

impl Receiving {
    /// Nothing has arrived.
    #[must_use]
    pub fn new() -> (receiving: Self)
        ensures
            receiving.deep_view() == Seq::<ArrivedView>::empty(),
    {
        let receiving = Receiving { arrived: Vec::new() };
        assert(receiving.deep_view() =~= Seq::empty());
        receiving
    }

    /// Take what waiting for the next delivery came to: a message is kept, and
    /// a broker that closes or is quiet ends it, whatever has arrived. So does
    /// another failure that may pass, once something has arrived. Any other
    /// failure is one of the whole.
    pub fn take(&mut self, delivery: Result<Option<Arrived>, Error>) -> (verdict: Verdict)
        ensures
            match delivery {
                Ok(Some(message)) => {
                    &&& verdict == Verdict::More
                    &&& final(self).deep_view() == old(self).deep_view().push(message.deep_view())
                },
                Ok(None) => {
                    &&& verdict == Verdict::Enough
                    &&& final(self).deep_view() == old(self).deep_view()
                },
                Err(error) => {
                    &&& verdict == if error is Quiet || (error::may_pass(error.deep_view())
                        && old(self).deep_view().len() > 0) {
                        Verdict::Enough
                    } else {
                        Verdict::Failed(error)
                    }
                    &&& final(self).deep_view() == old(self).deep_view()
                },
            },
    {
        match delivery {
            Ok(Some(message)) => {
                self.arrived.push(message);
                assert(self.deep_view() =~= old(self).deep_view().push(message.deep_view()));
                Verdict::More
            },
            Ok(None) => Verdict::Enough,
            Err(error) => if error.quiet() || (error.retryable()
                && self.arrived.len() > 0) {
                Verdict::Enough
            } else {
                Verdict::Failed(error)
            },
        }
    }

    /// What has arrived, in its order.
    #[must_use]
    pub fn arrived(self) -> (arrived: Vec<Arrived>)
        ensures
            arrived.deep_view() == self.deep_view(),
    {
        self.arrived
    }
}

} // verus!

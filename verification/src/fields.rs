//! What the methods that a client and a session send say, field by field, to
//! whoever reads them.
use vstd::prelude::*;
use vstd::utf8::*;

use crate::arguments;
use crate::client::{self, ConnectingView, LoginView};
use crate::error::ErrorView;
use crate::frame::FrameView;
use crate::octets;
use crate::session;
use crate::step::OutcomeView;
use crate::text;

verus! {

/// One argument of a method.
pub enum Field {
    Octet(u8),
    Short(u16),
    Long(u32),
    LongLong(u64),
    Text(Seq<char>),
    Octets(Seq<u8>),
    Bits(Seq<bool>),
    Table(Seq<(Seq<char>, Seq<char>)>),
}

/// `octets` hold these names and values of a table and nothing else: each name
/// a short string, each value marked `S` and a long string.
pub open spec fn holds_entries(octets: Seq<u8>, entries: Seq<(Seq<char>, Seq<char>)>) -> bool
    decreases entries.len(),
{
    if entries.len() == 0 {
        octets.len() == 0
    } else {
        match arguments::read_short_string(octets) {
            Some((name, rest)) => match arguments::read_number(rest, 1) {
                Some((kind, rest)) => match arguments::read_long_string(rest) {
                    Some((value, rest)) => {
                        &&& name == entries[0].0
                        &&& kind == 0x53
                        &&& value == encode_utf8(entries[0].1)
                        &&& holds_entries(rest, entries.skip(1))
                    },
                    None => false,
                },
                None => false,
            },
            None => false,
        }
    }
}

/// `octet` holds these bits from the least significant on, and is clear above
/// them.
pub open spec fn holds_bits(octet: u8, bits: Seq<bool>) -> bool {
    forall|at: u8|
        at < 8 ==> #[trigger] arguments::bit_of(octet, at) == (at < bits.len() && bits[at as int])
}

/// A number of `width` octets, and then `rest`.
pub open spec fn starts_with_number(
    octets: Seq<u8>,
    value: nat,
    width: nat,
    rest: Seq<u8>,
) -> bool {
    arguments::read_number(octets, width) == Some((value, rest))
}

/// `octets` start with `field`, and `rest` follows it.
pub open spec fn starts_with(octets: Seq<u8>, field: Field, rest: Seq<u8>) -> bool {
    match field {
        Field::Octet(value) => starts_with_number(octets, value as nat, 1, rest),
        Field::Short(value) => starts_with_number(octets, value as nat, 2, rest),
        Field::Long(value) => starts_with_number(octets, value as nat, 4, rest),
        Field::LongLong(value) => starts_with_number(octets, value as nat, 8, rest),
        Field::Text(text) => arguments::read_short_string(octets) == Some((text, rest)),
        Field::Octets(content) => arguments::read_long_string(octets) == Some((content, rest)),
        Field::Bits(bits) => {
            &&& octets.len() > 0
            &&& 0 < bits.len() <= 8
            &&& holds_bits(octets[0], bits)
            &&& rest == octets.skip(1)
        },
        Field::Table(entries) => {
            &&& arguments::read_long_string(octets) matches Some((content, after))
            &&& holds_entries(content, entries)
            &&& rest == after
        },
    }
}

/// `octets` read as these fields, one after the other, and as nothing more.
#[verifier::opaque]
pub open spec fn read_as(octets: Seq<u8>, fields: Seq<Field>) -> bool
    decreases fields.len(),
{
    if fields.len() == 0 {
        octets.len() == 0
    } else {
        exists|rest: Seq<u8>| #[trigger]
            starts_with(octets, fields[0], rest) && read_as(rest, fields.skip(1))
    }
}

/// `frame` is this method on this channel, and its arguments read as these
/// fields.
pub open spec fn says(
    frame: FrameView,
    channel: u16,
    class: u16,
    method: u16,
    fields: Seq<Field>,
) -> bool {
    &&& frame matches FrameView::Method { channel: c, class: cl, method: m, arguments }
    &&& (c, cl, m) == (channel, class, method)
    &&& read_as(arguments, fields)
}

/// A field in front of others is read before them.
proof fn lemma_field(octets: Seq<u8>, field: Field, rest: Seq<u8>, fields: Seq<Field>)
    requires
        starts_with(octets, field, rest),
        read_as(rest, fields),
    ensures
        read_as(octets, seq![field] + fields),
{
    reveal_with_fuel(read_as, 2);
    let all = seq![field] + fields;
    assert(all.skip(1) =~= fields);
    assert(starts_with(octets, all[0], rest) && read_as(rest, all.skip(1)));
}

/// A text in front of other fields.
proof fn lemma_text(text: Seq<char>, rest: Seq<u8>, fields: Seq<Field>)
    requires
        read_as(rest, fields),
    ensures
        read_as(
            arguments::short_string(text) + rest,
            seq![Field::Text(arguments::carried(text))] + fields,
        ),
{
    arguments::short_strings_round_trip(text, rest);
    lemma_field(
        arguments::short_string(text) + rest,
        Field::Text(arguments::carried(text)),
        rest,
        fields,
    );
}

/// A text that a short string holds whole in front of other fields.
proof fn lemma_literal(text: Seq<char>, rest: Seq<u8>, fields: Seq<Field>)
    requires
        read_as(rest, fields),
        text.len() <= 60,
    ensures
        read_as(arguments::short_string(text) + rest, seq![Field::Text(text)] + fields),
{
    text::lemma_utf8_len(text);
    arguments::short_strings_round_trip(text, rest);
    lemma_text(text, rest, fields);
}

/// Two octets in front of other fields.
proof fn lemma_short(value: u16, rest: Seq<u8>, fields: Seq<Field>)
    requires
        read_as(rest, fields),
    ensures
        read_as(octets::big_endian(value as nat, 2) + rest, seq![Field::Short(value)] + fields),
{
    octets::lemma_octet_spans();
    arguments::numbers_round_trip(value as nat, 2, rest);
    lemma_field(octets::big_endian(value as nat, 2) + rest, Field::Short(value), rest, fields);
}

/// Four octets in front of other fields.
proof fn lemma_long(value: u32, rest: Seq<u8>, fields: Seq<Field>)
    requires
        read_as(rest, fields),
    ensures
        read_as(octets::big_endian(value as nat, 4) + rest, seq![Field::Long(value)] + fields),
{
    octets::lemma_octet_spans();
    arguments::numbers_round_trip(value as nat, 4, rest);
    lemma_field(octets::big_endian(value as nat, 4) + rest, Field::Long(value), rest, fields);
}

/// Eight octets in front of other fields.
proof fn lemma_longlong(value: u64, rest: Seq<u8>, fields: Seq<Field>)
    requires
        read_as(rest, fields),
    ensures
        read_as(octets::big_endian(value as nat, 8) + rest, seq![Field::LongLong(value)] + fields),
{
    octets::lemma_octet_spans();
    arguments::numbers_round_trip(value as nat, 8, rest);
    lemma_field(octets::big_endian(value as nat, 8) + rest, Field::LongLong(value), rest, fields);
}

/// One octet in front of other fields.
proof fn lemma_octet(value: u8, rest: Seq<u8>, fields: Seq<Field>)
    requires
        read_as(rest, fields),
    ensures
        read_as(seq![value] + rest, seq![Field::Octet(value)] + fields),
{
    let octets = seq![value] + rest;
    octets::lemma_octet_spans();
    reveal_with_fuel(octets::big_endian, 2);
    assert(octets::big_endian(value as nat, 1) =~= seq![value]);
    arguments::numbers_round_trip(value as nat, 1, rest);
    lemma_field(octets, Field::Octet(value), rest, fields);
}

/// A long string in front of other fields.
proof fn lemma_octets(content: Seq<u8>, rest: Seq<u8>, fields: Seq<Field>)
    requires
        read_as(rest, fields),
        content.len() <= u32::MAX,
    ensures
        read_as(arguments::long_string(content) + rest, seq![Field::Octets(content)] + fields),
{
    arguments::long_strings_round_trip(content, rest);
    lemma_field(arguments::long_string(content) + rest, Field::Octets(content), rest, fields);
}

/// A few bits in front of other fields.
proof fn lemma_bits(bits: Seq<bool>, rest: Seq<u8>, fields: Seq<Field>)
    requires
        read_as(rest, fields),
        0 < bits.len() <= 8,
    ensures
        read_as(arguments::packed(bits) + rest, seq![Field::Bits(bits)] + fields),
{
    let packed = arguments::packed(bits);
    let octets = packed + rest;
    arguments::lemma_packed(bits);
    assert(packed.len() == 1);
    assert(octets.skip(1) =~= rest);
    assert forall|at: u8| at < 8 implies #[trigger] arguments::bit_of(octets[0], at) == (at
        < bits.len() && bits[at as int]) by {
        if at < bits.len() {
            assert(at as int / 8 == 0 && at as int % 8 == at);
            assert(bits[at as int] == arguments::bit_of(packed[at as int / 8], at));
        } else {
            assert(packed.last() == octets[0]);
            assert((bits.len() - 1) % 8 < at);
            assert(!arguments::bit_of(packed.last(), at));
        }
    }
    lemma_field(octets, Field::Bits(bits), rest, fields);
}

/// The names of a table as far as short strings carry them, and their values.
pub open spec fn carried_entries(entries: Seq<(Seq<char>, Seq<char>)>) -> Seq<
    (Seq<char>, Seq<char>),
> {
    entries.map_values(
        |entry: (Seq<char>, Seq<char>)| (arguments::carried(entry.0), entry.1),
    )
}

/// The names and values of a table are read back in their order, the names as
/// far as short strings carry them, and nothing else stands in it.
pub proof fn tables_hold_their_entries(entries: Seq<(Seq<char>, Seq<char>)>)
    requires
        forall|i: int|
            0 <= i < entries.len() ==> encode_utf8((#[trigger] entries[i]).1).len() <= u32::MAX,
    ensures
        holds_entries(arguments::table_fields(entries), carried_entries(entries)),
    decreases entries.len(),
{
    if entries.len() > 0 {
        let (name, value) = entries[0];
        let rest = entries.skip(1);
        let after = arguments::table_fields(rest);
        let content = arguments::long_string(encode_utf8(value));
        assert forall|i: int| 0 <= i < rest.len() implies encode_utf8((#[trigger] rest[i]).1).len()
            <= u32::MAX by {
            assert(rest[i] == entries[i + 1]);
        }
        tables_hold_their_entries(rest);
        arguments::lemma_table_fields_first(entries);
        octets::lemma_octet_spans();
        reveal_with_fuel(octets::big_endian, 2);
        assert(octets::big_endian(0x53, 1) =~= seq![0x53u8]);
        arguments::long_strings_round_trip(encode_utf8(value), after);
        arguments::numbers_round_trip(0x53, 1, content + after);
        arguments::short_strings_round_trip(name, seq![0x53u8] + (content + after));
        assert(arguments::table_fields(entries) =~= arguments::short_string(name) + (seq![0x53u8]
            + (content + after)));
        assert(carried_entries(entries).skip(1) =~= carried_entries(rest));
    }
}

/// A table in front of other fields.
proof fn lemma_table(
    entries: Seq<(Seq<char>, Seq<char>)>,
    rest: Seq<u8>,
    fields: Seq<Field>,
)
    requires
        read_as(rest, fields),
        arguments::table_fields(entries).len() <= u32::MAX,
        forall|i: int|
            0 <= i < entries.len() ==> encode_utf8((#[trigger] entries[i]).1).len() <= u32::MAX,
    ensures
        read_as(
            arguments::table(entries) + rest,
            seq![Field::Table(carried_entries(entries))] + fields,
        ),
{
    tables_hold_their_entries(entries);
    arguments::long_strings_round_trip(arguments::table_fields(entries), rest);
    lemma_field(
        arguments::table(entries) + rest,
        Field::Table(carried_entries(entries)),
        rest,
        fields,
    );
}

/// A table without entries in front of other fields.
proof fn lemma_empty_table(rest: Seq<u8>, fields: Seq<Field>)
    requires
        read_as(rest, fields),
    ensures
        read_as(arguments::table(Seq::empty()) + rest, seq![Field::Table(Seq::empty())] + fields),
{
    lemma_table(Seq::empty(), rest, fields);
    assert(carried_entries(Seq::empty()) =~= Seq::empty());
}

/// The table that both peers describe themselves with in front of other fields.
proof fn lemma_own_properties(rest: Seq<u8>, fields: Seq<Field>)
    requires
        read_as(rest, fields),
    ensures
        read_as(
            client::own_properties() + rest,
            seq![Field::Table(seq![("product"@, "xmip"@)])] + fields,
        ),
{
    let entries = seq![("product"@, "xmip"@)];
    reveal_strlit("product");
    reveal_strlit("xmip");
    reveal_with_fuel(arguments::table_fields, 2);
    text::lemma_utf8_len("product"@);
    text::lemma_utf8_len("xmip"@);
    octets::lemma_big_endian_len(encode_utf8("xmip"@).len(), 4);
    assert(arguments::table_fields(entries).len() <= u32::MAX);
    arguments::short_strings_round_trip("product"@, Seq::empty());
    lemma_table(entries, rest, fields);
    assert(carried_entries(entries) =~= entries);
}

/// What is at its end is nothing.
proof fn lemma_end()
    ensures
        read_as(Seq::empty(), Seq::empty()),
{
    reveal(read_as);
}

/// Whatever a connection.start says, a client answers it with one
/// connection.start-ok: what it is, that it logs in with PLAIN, the user and the
/// password with a NUL before each, and its locale. It goes on to wait for the
/// tuning, with the same broker and login.
pub proof fn a_client_presents_its_login(
    broker: Seq<char>,
    login: LoginView,
    arguments: Seq<u8>,
)
    requires
        encode_utf8(seq!['\0'] + login.user + seq!['\0'] + login.password).len() <= u32::MAX,
    ensures
        ({
            let connecting = ConnectingView { broker, login, stage: client::Stage::Start };
            let start = FrameView::Method { channel: 0, class: 10, method: 10, arguments };
            let response = encode_utf8(seq!['\0'] + login.user + seq!['\0'] + login.password);
            let (next, step) = connecting.on_frame(Some(start));
            &&& next == (ConnectingView { broker, login, stage: client::Stage::Tune })
            &&& step.outcome is Waiting
            &&& step.send.len() == 1
            &&& says(
                step.send[0],
                0,
                10,
                11,
                seq![
                    Field::Table(seq![("product"@, "xmip"@)]),
                    Field::Text("PLAIN"@),
                    Field::Octets(response),
                    Field::Text("en_US"@),
                ],
            )
        }),
{
    lemma_login(encode_utf8(seq!['\0'] + login.user + seq!['\0'] + login.password));
}

/// The arguments of a connection.start-ok.
#[verifier::rlimit(40)]
proof fn lemma_login(response: Seq<u8>)
    requires
        response.len() <= u32::MAX,
    ensures
        read_as(
            client::own_properties() + arguments::short_string("PLAIN"@) + arguments::long_string(
                response,
            ) + arguments::short_string("en_US"@),
            seq![
                Field::Table(seq![("product"@, "xmip"@)]),
                Field::Text("PLAIN"@),
                Field::Octets(response),
                Field::Text("en_US"@),
            ],
        ),
{
    let own = client::own_properties();
    let name = arguments::short_string("PLAIN"@);
    let given = arguments::long_string(response);
    let tongue = arguments::short_string("en_US"@);
    assert("PLAIN"@.len() == 5 && "en_US"@.len() == 5) by {
        reveal_strlit("PLAIN");
        reveal_strlit("en_US");
    }
    lemma_end();
    let f4 = seq![Field::Text("en_US"@)] + Seq::empty();
    let f3 = seq![Field::Octets(response)] + f4;
    let f2 = seq![Field::Text("PLAIN"@)] + f3;
    let f1 = seq![Field::Table(seq![("product"@, "xmip"@)])] + f2;
    lemma_literal("en_US"@, Seq::empty(), Seq::empty());
    lemma_octets(response, tongue + Seq::empty(), f4);
    lemma_literal("PLAIN"@, given + (tongue + Seq::empty()), f3);
    lemma_own_properties(name + (given + (tongue + Seq::empty())), f2);
    assert(f1 =~= seq![
        Field::Table(seq![("product"@, "xmip"@)]),
        Field::Text("PLAIN"@),
        Field::Octets(response),
        Field::Text("en_US"@),
    ]);
    lemma_four(own, name, given, tongue);
}

/// Four runs of octets, one after the other.
proof fn lemma_four(first: Seq<u8>, second: Seq<u8>, third: Seq<u8>, fourth: Seq<u8>)
    ensures
        first + (second + (third + (fourth + Seq::empty()))) == first + second + third + fourth,
{
    assert(first + (second + (third + (fourth + Seq::empty()))) =~= first + second + third
        + fourth);
}

/// Whatever channels and frame size a broker's connection.tune allows, and
/// whatever follows them, a client answers with the same channels, the smaller
/// of the two frame sizes where the broker sets one, and no heartbeat, and then
/// opens the virtual host of its login. It goes on with that frame size.
#[verifier::rlimit(40)]
pub proof fn a_client_settles_and_opens_its_virtual_host(
    broker: Seq<char>,
    login: LoginView,
    channel_max: u16,
    allowed: u32,
    rest: Seq<u8>,
)
    ensures
        ({
            let connecting = ConnectingView { broker, login, stage: client::Stage::Tune };
            let tune = FrameView::Method {
                channel: 0,
                class: 10,
                method: 30,
                arguments: octets::big_endian(channel_max as nat, 2) + octets::big_endian(
                    allowed as nat,
                    4,
                ) + rest,
            };
            let frame_max: u32 = if 0 < allowed < 131072 {
                allowed
            } else {
                131072
            };
            let (next, step) = connecting.on_frame(Some(tune));
            &&& next == (ConnectingView {
                broker,
                login,
                stage: client::Stage::OpenOk { frame_max },
            })
            &&& step.outcome is Waiting
            &&& step.send.len() == 2
            &&& says(
                step.send[0],
                0,
                10,
                31,
                seq![Field::Short(channel_max), Field::Long(frame_max), Field::Short(0)],
            )
            &&& says(
                step.send[1],
                0,
                10,
                40,
                seq![
                    Field::Text(arguments::carried(login.virtual_host)),
                    Field::Text(Seq::empty()),
                    Field::Bits(seq![false]),
                ],
            )
        }),
        arguments::fits_short_string(login.virtual_host) ==> arguments::carried(login.virtual_host)
            == login.virtual_host,
{
    let frame_max: u32 = if 0 < allowed < 131072 {
        allowed
    } else {
        131072
    };
    octets::lemma_octet_spans();
    arguments::numbers_round_trip(
        channel_max as nat,
        2,
        octets::big_endian(allowed as nat, 4) + rest,
    );
    arguments::numbers_round_trip(allowed as nat, 4, rest);
    assert(octets::big_endian(channel_max as nat, 2) + octets::big_endian(allowed as nat, 4) + rest
        =~= octets::big_endian(channel_max as nat, 2) + (octets::big_endian(allowed as nat, 4)
        + rest));
    lemma_end();
    let end = octets::big_endian(0, 2) + Seq::empty();
    let size = octets::big_endian(frame_max as nat, 4) + end;
    let t3 = seq![Field::Short(0)] + Seq::empty();
    let t2 = seq![Field::Long(frame_max)] + t3;
    lemma_short(0, Seq::empty(), Seq::empty());
    lemma_long(frame_max, end, t3);
    lemma_short(channel_max, size, t2);
    assert(seq![Field::Short(channel_max)] + t2 =~= seq![
        Field::Short(channel_max),
        Field::Long(frame_max),
        Field::Short(0),
    ]);
    assert(octets::big_endian(channel_max as nat, 2) + size =~= octets::big_endian(
        channel_max as nat,
        2,
    ) + octets::big_endian(frame_max as nat, 4) + octets::big_endian(0, 2));
    let bits = arguments::packed(seq![false]) + Seq::empty();
    let reserved = arguments::short_string(""@) + bits;
    let o3 = seq![Field::Bits(seq![false])] + Seq::empty();
    let o2 = seq![Field::Text(Seq::empty())] + o3;
    reveal_strlit("");
    assert(""@ =~= Seq::empty());
    lemma_bits(seq![false], Seq::empty(), Seq::empty());
    lemma_literal(""@, bits, o3);
    lemma_text(login.virtual_host, reserved, o2);
    arguments::short_strings_round_trip(login.virtual_host, reserved);
    assert(seq![Field::Text(arguments::carried(login.virtual_host))] + o2 =~= seq![
        Field::Text(arguments::carried(login.virtual_host)),
        Field::Text(Seq::empty()),
        Field::Bits(seq![false]),
    ]);
    assert(arguments::short_string(login.virtual_host) + reserved =~= arguments::short_string(
        login.virtual_host,
    ) + arguments::short_string(""@) + arguments::packed(seq![false]));
}

/// Whatever a connection.open-ok says, a client opens channel 1, and whatever a
/// channel.open-ok says, it is connected to its broker with the frame size that
/// was settled on, with no consumer and nothing on its way.
#[verifier::rlimit(40)]
pub proof fn a_client_opens_its_channel_and_is_connected(
    broker: Seq<char>,
    login: LoginView,
    frame_max: u32,
    arguments: Seq<u8>,
)
    ensures
        ({
            let opening = ConnectingView {
                broker,
                login,
                stage: client::Stage::OpenOk { frame_max },
            };
            let last = ConnectingView {
                broker,
                login,
                stage: client::Stage::ChannelOpenOk { frame_max },
            };
            let open_ok = FrameView::Method { channel: 0, class: 10, method: 41, arguments };
            let channel_open_ok = FrameView::Method {
                channel: 1,
                class: 20,
                method: 11,
                arguments,
            };
            let (next, step) = opening.on_frame(Some(open_ok));
            let connected = last.on_frame(Some(channel_open_ok)).1;
            &&& next == last
            &&& step.outcome is Waiting
            &&& step.send.len() == 1
            &&& says(step.send[0], 1, 20, 10, seq![Field::Text(Seq::empty())])
            &&& connected.send.len() == 0
            &&& connected.outcome == OutcomeView::Done(
                client::ClientView {
                    broker,
                    frame_max: frame_max as nat,
                    consumer_tag: None,
                    delivery: None,
                },
            )
        }),
{
    reveal_strlit("");
    assert(""@ =~= Seq::empty());
    lemma_end();
    lemma_literal(""@, Seq::empty(), Seq::empty());
    assert(seq![Field::Text(Seq::empty())] + Seq::empty() =~= seq![Field::Text(Seq::empty())]);
    assert(arguments::short_string(""@) + Seq::empty() =~= arguments::short_string(""@));
}

/// A connection.tune too short for the channels and the frame size fails, and
/// nothing is answered.
pub proof fn a_short_tune_fails(broker: Seq<char>, login: LoginView, arguments: Seq<u8>)
    requires
        arguments.len() < 6,
    ensures
        ({
            let connecting = ConnectingView { broker, login, stage: client::Stage::Tune };
            let tune = FrameView::Method { channel: 0, class: 10, method: 30, arguments };
            let (next, step) = connecting.on_frame(Some(tune));
            &&& next == connecting
            &&& step.send.len() == 0
            &&& step.outcome == OutcomeView::<client::ClientView>::Failed(
                ErrorView::ArgumentPastFrame,
            )
        }),
{
}

/// A queue is declared by its name, durable and neither passive, exclusive, to
/// be deleted nor unanswered, without arguments.
pub proof fn a_declaration_names_a_durable_queue(queue: Seq<char>)
    ensures
        says(
            client::declare_frame(queue),
            1,
            50,
            10,
            seq![
                Field::Short(0),
                Field::Text(arguments::carried(queue)),
                Field::Bits(seq![false, true, false, false, false]),
                Field::Table(Seq::empty()),
            ],
        ),
{
    let bits = seq![false, true, false, false, false];
    let table = arguments::table(Seq::empty()) + Seq::empty();
    let options = arguments::packed(bits) + table;
    let named = arguments::short_string(queue) + options;
    let f4 = seq![Field::Table(Seq::empty())] + Seq::empty();
    let f3 = seq![Field::Bits(bits)] + f4;
    let f2 = seq![Field::Text(arguments::carried(queue))] + f3;
    lemma_end();
    lemma_empty_table(Seq::empty(), Seq::empty());
    lemma_bits(bits, table, f4);
    lemma_text(queue, options, f3);
    lemma_short(0, named, f2);
    assert(seq![Field::Short(0)] + f2 =~= seq![
        Field::Short(0),
        Field::Text(arguments::carried(queue)),
        Field::Bits(bits),
        Field::Table(Seq::empty()),
    ]);
    assert(octets::big_endian(0, 2) + named =~= octets::big_endian(0, 2) + arguments::short_string(
        queue,
    ) + arguments::packed(bits) + arguments::table(Seq::empty()));
}

/// A queue is consumed by its name, with no tag asked for, none of the options
/// and no arguments.
#[verifier::rlimit(40)]
pub proof fn a_consumer_names_its_queue(queue: Seq<char>)
    ensures
        says(
            client::consume_frame(queue),
            1,
            60,
            20,
            seq![
                Field::Short(0),
                Field::Text(arguments::carried(queue)),
                Field::Text(Seq::empty()),
                Field::Bits(seq![false, false, false, false]),
                Field::Table(Seq::empty()),
            ],
        ),
{
    let bits = seq![false, false, false, false];
    let table = arguments::table(Seq::empty()) + Seq::empty();
    let options = arguments::packed(bits) + table;
    let tagged = arguments::short_string(""@) + options;
    let named = arguments::short_string(queue) + tagged;
    let f5 = seq![Field::Table(Seq::empty())] + Seq::empty();
    let f4 = seq![Field::Bits(bits)] + f5;
    let f3 = seq![Field::Text(Seq::empty())] + f4;
    let f2 = seq![Field::Text(arguments::carried(queue))] + f3;
    reveal_strlit("");
    assert(""@ =~= Seq::empty());
    lemma_end();
    lemma_empty_table(Seq::empty(), Seq::empty());
    lemma_bits(bits, table, f5);
    lemma_literal(""@, options, f4);
    lemma_text(queue, tagged, f3);
    lemma_short(0, named, f2);
    assert(seq![Field::Short(0)] + f2 =~= seq![
        Field::Short(0),
        Field::Text(arguments::carried(queue)),
        Field::Text(Seq::empty()),
        Field::Bits(bits),
        Field::Table(Seq::empty()),
    ]);
    assert(octets::big_endian(0, 2) + named =~= octets::big_endian(0, 2) + arguments::short_string(
        queue,
    ) + arguments::short_string(""@) + arguments::packed(bits) + arguments::table(Seq::empty()));
}

/// A publish starts with the exchange and the routing key, neither mandatory
/// nor immediate, on channel 1.
pub proof fn a_publish_names_its_exchange_and_key(
    exchange: Seq<char>,
    routing_key: Seq<char>,
    body: Seq<u8>,
    frame_max: nat,
)
    ensures
        says(
            client::published(exchange, routing_key, body, frame_max)[0],
            1,
            60,
            40,
            seq![
                Field::Short(0),
                Field::Text(arguments::carried(exchange)),
                Field::Text(arguments::carried(routing_key)),
                Field::Bits(seq![false, false]),
            ],
        ),
{
    let bits = seq![false, false];
    let options = arguments::packed(bits) + Seq::empty();
    let keyed = arguments::short_string(routing_key) + options;
    let named = arguments::short_string(exchange) + keyed;
    let f4 = seq![Field::Bits(bits)] + Seq::empty();
    let f3 = seq![Field::Text(arguments::carried(routing_key))] + f4;
    let f2 = seq![Field::Text(arguments::carried(exchange))] + f3;
    lemma_end();
    lemma_bits(bits, Seq::empty(), Seq::empty());
    lemma_text(routing_key, options, f4);
    lemma_text(exchange, keyed, f3);
    lemma_short(0, named, f2);
    assert(seq![Field::Short(0)] + f2 =~= seq![
        Field::Short(0),
        Field::Text(arguments::carried(exchange)),
        Field::Text(arguments::carried(routing_key)),
        Field::Bits(bits),
    ]);
    assert(octets::big_endian(0, 2) + named =~= octets::big_endian(0, 2) + arguments::short_string(
        exchange,
    ) + arguments::short_string(routing_key) + arguments::packed(bits));
}

/// An acknowledgement names one delivery and no other.
pub proof fn an_acknowledgement_names_its_delivery(delivery_tag: u64)
    ensures
        says(
            client::ack_frame(delivery_tag),
            1,
            60,
            80,
            seq![Field::LongLong(delivery_tag), Field::Bits(seq![false])],
        ),
{
    let bits = arguments::packed(seq![false]) + Seq::empty();
    let f2 = seq![Field::Bits(seq![false])] + Seq::empty();
    lemma_end();
    lemma_bits(seq![false], Seq::empty(), Seq::empty());
    lemma_longlong(delivery_tag, bits, f2);
    assert(seq![Field::LongLong(delivery_tag)] + f2 =~= seq![
        Field::LongLong(delivery_tag),
        Field::Bits(seq![false]),
    ]);
    assert(octets::big_endian(delivery_tag as nat, 8) + bits =~= octets::big_endian(
        delivery_tag as nat,
        8,
    ) + arguments::packed(seq![false]));
}

/// A goodbye says that all is well and blames no method, and its answer says
/// nothing.
pub proof fn a_goodbye_blames_nobody()
    ensures
        says(
            client::close_frame(),
            0,
            10,
            50,
            seq![Field::Short(200), Field::Text("bye"@), Field::Short(0), Field::Short(0)],
        ),
        says(client::close_ok_frame(), 0, 10, 51, Seq::empty()),
{
    let last = octets::big_endian(0, 2) + Seq::empty();
    let both = octets::big_endian(0, 2) + last;
    let reason = arguments::short_string("bye"@) + both;
    let f4 = seq![Field::Short(0)] + Seq::empty();
    let f3 = seq![Field::Short(0)] + f4;
    let f2 = seq![Field::Text("bye"@)] + f3;
    reveal_strlit("bye");
    lemma_end();
    lemma_short(0, Seq::empty(), Seq::empty());
    lemma_short(0, last, f4);
    lemma_literal("bye"@, both, f3);
    lemma_short(200, reason, f2);
    assert(seq![Field::Short(200)] + f2 =~= seq![
        Field::Short(200),
        Field::Text("bye"@),
        Field::Short(0),
        Field::Short(0),
    ]);
    assert(octets::big_endian(200, 2) + reason =~= octets::big_endian(200, 2)
        + arguments::short_string("bye"@) + octets::big_endian(0, 2) + octets::big_endian(0, 2));
}

/// A session opens with the version 0-9, what it is, that it takes PLAIN, and
/// its locale. It proposes one channel, its frame size and no heartbeat, and
/// says of the virtual host only that it is open.
#[verifier::rlimit(40)]
pub proof fn a_session_says_what_it_takes()
    ensures
        says(
            session::start_frame(),
            0,
            10,
            10,
            seq![
                Field::Octet(0),
                Field::Octet(9),
                Field::Table(seq![("product"@, "xmip"@)]),
                Field::Octets(encode_utf8("PLAIN"@)),
                Field::Octets(encode_utf8("en_US"@)),
            ],
        ),
        says(
            session::tune_frame(),
            0,
            10,
            30,
            seq![Field::Short(1), Field::Long(131072), Field::Short(0)],
        ),
        says(session::open_ok_frame(), 0, 10, 41, seq![Field::Text(Seq::empty())]),
{
    lemma_end();
    assert(encode_utf8("PLAIN"@).len() <= u32::MAX && encode_utf8("en_US"@).len() <= u32::MAX) by {
        reveal_strlit("PLAIN");
        reveal_strlit("en_US");
        text::lemma_utf8_len("PLAIN"@);
        text::lemma_utf8_len("en_US"@);
    }
    lemma_start(encode_utf8("PLAIN"@), encode_utf8("en_US"@));
    let end = octets::big_endian(0, 2) + Seq::empty();
    let size = octets::big_endian(131072, 4) + end;
    let t3 = seq![Field::Short(0)] + Seq::empty();
    let t2 = seq![Field::Long(131072)] + t3;
    lemma_short(0, Seq::empty(), Seq::empty());
    lemma_long(131072, end, t3);
    lemma_short(1, size, t2);
    assert(seq![Field::Short(1)] + t2 =~= seq![
        Field::Short(1),
        Field::Long(131072),
        Field::Short(0),
    ]);
    assert(octets::big_endian(1, 2) + size =~= octets::big_endian(1, 2) + octets::big_endian(
        131072,
        4,
    ) + octets::big_endian(0, 2));
    lemma_reserved_text();
}

/// The arguments of a connection.start.
#[verifier::rlimit(40)]
proof fn lemma_start(mechanisms: Seq<u8>, locales: Seq<u8>)
    requires
        mechanisms.len() <= u32::MAX,
        locales.len() <= u32::MAX,
    ensures
        read_as(
            seq![0u8, 9u8] + client::own_properties() + arguments::long_string(mechanisms)
                + arguments::long_string(locales),
            seq![
                Field::Octet(0),
                Field::Octet(9),
                Field::Table(seq![("product"@, "xmip"@)]),
                Field::Octets(mechanisms),
                Field::Octets(locales),
            ],
        ),
{
    let own = client::own_properties();
    let plain = arguments::long_string(mechanisms);
    let english = arguments::long_string(locales);
    let f5 = seq![Field::Octets(locales)] + Seq::empty();
    let f4 = seq![Field::Octets(mechanisms)] + f5;
    let f3 = seq![Field::Table(seq![("product"@, "xmip"@)])] + f4;
    let f2 = seq![Field::Octet(9)] + f3;
    let after = own + (plain + (english + Seq::empty()));
    lemma_end();
    lemma_octets(locales, Seq::empty(), Seq::empty());
    lemma_octets(mechanisms, english + Seq::empty(), f5);
    lemma_own_properties(plain + (english + Seq::empty()), f4);
    lemma_octet(9, after, f3);
    lemma_octet(0, seq![9u8] + after, f2);
    assert(seq![Field::Octet(0)] + f2 =~= seq![
        Field::Octet(0),
        Field::Octet(9),
        Field::Table(seq![("product"@, "xmip"@)]),
        Field::Octets(mechanisms),
        Field::Octets(locales),
    ]);
    assert(seq![0u8] + (seq![9u8] + after) =~= seq![0u8, 9u8] + after);
    lemma_four(seq![0u8, 9u8], own, plain, english);
}

/// An empty short string and nothing else.
proof fn lemma_reserved_text()
    ensures
        read_as(arguments::short_string(""@), seq![Field::Text(Seq::empty())]),
{
    reveal_strlit("");
    assert(""@ =~= Seq::empty());
    lemma_end();
    lemma_literal(""@, Seq::empty(), Seq::empty());
    assert(seq![Field::Text(Seq::empty())] + Seq::empty() =~= seq![Field::Text(Seq::empty())]);
    assert(arguments::short_string(""@) + Seq::empty() =~= arguments::short_string(""@));
}

/// What a session answers to a channel, a declaration and a consumer names the
/// channel it came on, the queue, which holds and serves nothing, and the tag.
pub proof fn a_session_answers_where_it_was_asked(
    channel: u16,
    queue: Seq<char>,
    tag: Seq<char>,
)
    ensures
        says(
            session::channel_open_ok_frame(channel),
            channel,
            20,
            11,
            seq![Field::Octets(Seq::empty())],
        ),
        says(session::channel_close_ok_frame(channel), channel, 20, 41, Seq::empty()),
        says(
            session::declare_ok_frame(channel, queue),
            channel,
            50,
            11,
            seq![Field::Text(arguments::carried(queue)), Field::Long(0), Field::Long(0)],
        ),
        says(
            session::consume_ok_frame(channel, tag),
            channel,
            60,
            21,
            seq![Field::Text(arguments::carried(tag))],
        ),
{
    lemma_end();
    let nothing = Seq::<u8>::empty();
    lemma_octets(nothing, Seq::empty(), Seq::empty());
    assert(seq![Field::Octets(nothing)] + Seq::empty() =~= seq![Field::Octets(nothing)]);
    assert(arguments::long_string(nothing) + Seq::empty() =~= arguments::long_string(nothing));
    let last = octets::big_endian(0, 4) + Seq::empty();
    let both = octets::big_endian(0, 4) + last;
    let f3 = seq![Field::Long(0)] + Seq::empty();
    let f2 = seq![Field::Long(0)] + f3;
    lemma_long(0, Seq::empty(), Seq::empty());
    lemma_long(0, last, f3);
    lemma_text(queue, both, f2);
    assert(seq![Field::Text(arguments::carried(queue))] + f2 =~= seq![
        Field::Text(arguments::carried(queue)),
        Field::Long(0),
        Field::Long(0),
    ]);
    assert(arguments::short_string(queue) + both =~= arguments::short_string(queue)
        + octets::big_endian(0, 4) + octets::big_endian(0, 4));
    lemma_text(tag, Seq::empty(), Seq::empty());
    assert(seq![Field::Text(arguments::carried(tag))] + Seq::empty() =~= seq![
        Field::Text(arguments::carried(tag)),
    ]);
    assert(arguments::short_string(tag) + Seq::empty() =~= arguments::short_string(tag));
}

/// A delivery starts with the consumer's tag, its own, that it was not
/// delivered before, no exchange, and the routing key, on channel 1.
#[verifier::rlimit(40)]
pub proof fn a_delivery_names_its_consumer_and_key(
    tag: Seq<char>,
    delivery_tag: u64,
    routing_key: Seq<char>,
    body: Seq<u8>,
)
    ensures
        says(
            session::delivered(tag, delivery_tag, routing_key, body)[0],
            1,
            60,
            60,
            seq![
                Field::Text(arguments::carried(tag)),
                Field::LongLong(delivery_tag),
                Field::Bits(seq![false]),
                Field::Text(Seq::empty()),
                Field::Text(arguments::carried(routing_key)),
            ],
        ),
{
    let keyed = arguments::short_string(routing_key) + Seq::empty();
    let exchange = arguments::short_string(""@) + keyed;
    let again = arguments::packed(seq![false]) + exchange;
    let numbered = octets::big_endian(delivery_tag as nat, 8) + again;
    let f5 = seq![Field::Text(arguments::carried(routing_key))] + Seq::empty();
    let f4 = seq![Field::Text(Seq::empty())] + f5;
    let f3 = seq![Field::Bits(seq![false])] + f4;
    let f2 = seq![Field::LongLong(delivery_tag)] + f3;
    reveal_strlit("");
    assert(""@ =~= Seq::empty());
    lemma_end();
    lemma_text(routing_key, Seq::empty(), Seq::empty());
    lemma_literal(""@, keyed, f5);
    lemma_bits(seq![false], exchange, f4);
    lemma_longlong(delivery_tag, again, f3);
    lemma_text(tag, numbered, f2);
    assert(seq![Field::Text(arguments::carried(tag))] + f2 =~= seq![
        Field::Text(arguments::carried(tag)),
        Field::LongLong(delivery_tag),
        Field::Bits(seq![false]),
        Field::Text(Seq::empty()),
        Field::Text(arguments::carried(routing_key)),
    ]);
    assert(arguments::short_string(tag) + numbered =~= arguments::short_string(tag)
        + octets::big_endian(delivery_tag as nat, 8) + arguments::packed(seq![false])
        + arguments::short_string(""@) + arguments::short_string(routing_key));
}

} // verus!

//! AMQP 0-9-1 on the wire: the frame, that is type, channel, size, payload
//! and the `0xCE` that ends it.
use vstd::prelude::*;

use crate::arguments;
use crate::error::{self, Error, Part};
use crate::octets::{self, number, put_u16, put_u64};
use crate::text::{self, put_decimal};
use crate::writer::put_length;

pub use crate::reader::Reader;
pub use crate::writer::Writer;

verus! {

/// The protocol header a client opens with: `AMQP`, 0, and the version 0-9-1.
pub const PROTOCOL_HEADER: [u8; 8] = [0x41, 0x4d, 0x51, 0x50, 0, 0, 9, 1];

/// The frame end every frame closes with.
pub const FRAME_END: u8 = 0xce;

/// The frame size this transport proposes and accepts.
pub const FRAME_MAX: u32 = 131_072;

pub const CLASS_CONNECTION: u16 = 10;

pub const CLASS_CHANNEL: u16 = 20;

pub const CLASS_QUEUE: u16 = 50;

pub const CLASS_BASIC: u16 = 60;

/// One frame, as its type says.
#[derive(Clone, Debug, PartialEq, Eq)]
pub enum Frame {
    Method { channel: u16, class: u16, method: u16, arguments: Vec<u8> },
    Header { channel: u16, class: u16, body_size: u64 },
    Body { channel: u16, bytes: Vec<u8> },
    Heartbeat,
}

/// What a frame says.
pub enum FrameView {
    Method { channel: u16, class: u16, method: u16, arguments: Seq<u8> },
    Header { channel: u16, class: u16, body_size: u64 },
    Body { channel: u16, bytes: Seq<u8> },
    Heartbeat,
}

impl DeepView for Frame {
    type V = FrameView;

    open spec fn deep_view(&self) -> FrameView {
        match self {
            Frame::Method { channel, class, method, arguments } => FrameView::Method {
                channel: *channel,
                class: *class,
                method: *method,
                arguments: arguments@,
            },
            Frame::Header { channel, class, body_size } => FrameView::Header {
                channel: *channel,
                class: *class,
                body_size: *body_size,
            },
            Frame::Body { channel, bytes } => FrameView::Body { channel: *channel, bytes: bytes@ },
            Frame::Heartbeat => FrameView::Heartbeat,
        }
    }
}

impl Frame {
    /// A method frame on `channel`, its arguments already written.
    #[must_use]
    pub fn method(channel: u16, class: u16, method: u16, arguments: Vec<u8>) -> (frame: Self)
        ensures
            frame == (Frame::Method { channel, class, method, arguments }),
    {
        Frame::Method { channel, class, method, arguments }
    }

    /// The frame as text, field by field.
    #[must_use]
    pub fn describe(&self) -> (text: String)
        ensures
            text@ == described(self.deep_view()),
    {
        let mut text = String::new();
        match self {
            Frame::Method { channel, class, method, arguments } => {
                text.append("Method { channel: ");
                put_decimal(&mut text, *channel as u64);
                text.append(", class: ");
                put_decimal(&mut text, *class as u64);
                text.append(", method: ");
                put_decimal(&mut text, *method as u64);
                text.append(", arguments: ");
                put_list(&mut text, arguments);
                text.append(" }");
            },
            Frame::Header { channel, class, body_size } => {
                text.append("Header { channel: ");
                put_decimal(&mut text, *channel as u64);
                text.append(", class: ");
                put_decimal(&mut text, *class as u64);
                text.append(", body_size: ");
                put_decimal(&mut text, *body_size);
                text.append(" }");
            },
            Frame::Body { channel, bytes } => {
                text.append("Body { channel: ");
                put_decimal(&mut text, *channel as u64);
                text.append(", bytes: ");
                put_list(&mut text, bytes);
                text.append(" }");
            },
            Frame::Heartbeat => {
                text.append("Heartbeat");
            },
        }
        text
    }
}

/// Octets in decimal, a comma between them.
pub open spec fn listed(octets: Seq<u8>) -> Seq<char>
    decreases octets.len(),
{
    if octets.len() == 0 {
        Seq::empty()
    } else if octets.len() == 1 {
        text::decimal(octets[0] as nat)
    } else {
        listed(octets.drop_last()) + ", "@ + text::decimal(octets.last() as nat)
    }
}

/// A frame as text, field by field.
pub open spec fn described(frame: FrameView) -> Seq<char> {
    match frame {
        FrameView::Method { channel, class, method, arguments } => "Method { channel: "@
            + text::decimal(channel as nat) + ", class: "@ + text::decimal(class as nat)
            + ", method: "@ + text::decimal(method as nat) + ", arguments: "@ + ("["@ + listed(
            arguments,
        ) + "]"@) + " }"@,
        FrameView::Header { channel, class, body_size } => "Header { channel: "@ + text::decimal(
            channel as nat,
        ) + ", class: "@ + text::decimal(class as nat) + ", body_size: "@ + text::decimal(
            body_size as nat,
        ) + " }"@,
        FrameView::Body { channel, bytes } => "Body { channel: "@ + text::decimal(channel as nat)
            + ", bytes: "@ + ("["@ + listed(bytes) + "]"@) + " }"@,
        FrameView::Heartbeat => "Heartbeat"@,
    }
}

/// Append octets in decimal, in brackets.
fn put_list(out: &mut String, octets: &Vec<u8>)
    ensures
        final(out)@ == old(out)@ + ("["@ + listed(octets@) + "]"@),
{
    out.append("[");
    let mut i: usize = 0;
    while i < octets.len()
        invariant
            i <= octets@.len(),
            out@ == old(out)@ + "["@ + listed(octets@.take(i as int)),
        decreases octets@.len() - i,
    {
        assert(octets@.take(i + 1).drop_last() =~= octets@.take(i as int));
        if i > 0 {
            out.append(", ");
        }
        put_decimal(out, octets[i] as u64);
        i = i + 1;
    }
    assert(octets@.take(i as int) =~= octets@);
    out.append("]");
}

/// The type octet of a method frame.
pub const KIND_METHOD: u8 = 1;

/// The type octet of a content header frame.
pub const KIND_HEADER: u8 = 2;

/// The type octet of a body frame.
pub const KIND_BODY: u8 = 3;

/// The type octet of a heartbeat.
pub const KIND_HEARTBEAT: u8 = 8;

impl FrameView {
    /// The type octet of a frame.
    pub open spec fn kind(self) -> u8 {
        match self {
            FrameView::Method { .. } => KIND_METHOD,
            FrameView::Header { .. } => KIND_HEADER,
            FrameView::Body { .. } => KIND_BODY,
            FrameView::Heartbeat => KIND_HEARTBEAT,
        }
    }

    /// The channel a frame belongs to.
    pub open spec fn channel(self) -> u16 {
        match self {
            FrameView::Method { channel, .. } => channel,
            FrameView::Header { channel, .. } => channel,
            FrameView::Body { channel, .. } => channel,
            FrameView::Heartbeat => 0,
        }
    }

    /// What stands between the head of a frame and its end.
    pub open spec fn payload(self) -> Seq<u8> {
        match self {
            FrameView::Method { class, method, arguments, .. } => octets::big_endian(
                class as nat,
                2,
            ) + octets::big_endian(method as nat, 2) + arguments,
            FrameView::Header { class, body_size, .. } => octets::big_endian(class as nat, 2)
                + octets::big_endian(0, 2) + octets::big_endian(body_size as nat, 8)
                + octets::big_endian(0, 2),
            FrameView::Body { bytes, .. } => bytes,
            FrameView::Heartbeat => Seq::empty(),
        }
    }

    /// A frame as octets on the wire.
    pub open spec fn encoded(self) -> Seq<u8> {
        seq![self.kind()] + octets::big_endian(self.channel() as nat, 2) + arguments::length_field(
            self.payload().len(),
        ) + self.payload() + seq![FRAME_END]
    }

    /// The size field can spell the size of the payload.
    pub open spec fn sized(self) -> bool {
        self.payload().len() <= u32::MAX
    }
}

/// Frames as octets on the wire, one after the other.
pub open spec fn encoded_all(frames: Seq<FrameView>) -> Seq<u8>
    decreases frames.len(),
{
    if frames.len() == 0 {
        Seq::empty()
    } else {
        frames[0].encoded() + encoded_all(frames.skip(1))
    }
}

/// `frame` as octets on the wire.
#[must_use]
pub fn encode(frame: &Frame) -> (octets: Vec<u8>)
    ensures
        octets@ == frame.deep_view().encoded(),
{
    let mut payload: Vec<u8> = Vec::new();
    let (kind, channel): (u8, u16) = match frame {
        Frame::Method { channel, class, method, arguments } => {
            put_u16(&mut payload, *class);
            put_u16(&mut payload, *method);
            payload.extend_from_slice(arguments);
            (KIND_METHOD, *channel)
        },
        Frame::Header { channel, class, body_size } => {
            put_u16(&mut payload, *class);
            put_u16(&mut payload, 0);
            put_u64(&mut payload, *body_size);
            put_u16(&mut payload, 0);
            (KIND_HEADER, *channel)
        },
        Frame::Body { channel, bytes } => {
            payload.extend_from_slice(bytes);
            (KIND_BODY, *channel)
        },
        Frame::Heartbeat => (KIND_HEARTBEAT, 0),
    };
    assert(payload@ =~= frame.deep_view().payload());
    let mut out: Vec<u8> = Vec::new();
    out.push(kind);
    put_u16(&mut out, channel);
    put_length(&mut out, payload.len());
    out.extend_from_slice(&payload);
    out.push(FRAME_END);
    assert(out@ =~= frame.deep_view().encoded());
    out
}

/// Whether AMQP has frames of type `kind`.
pub open spec fn known_kind(kind: u8) -> bool {
    kind == KIND_METHOD || kind == KIND_HEADER || kind == KIND_BODY || kind == KIND_HEARTBEAT
}

/// The frame that a payload makes, as its type says. What a content header
/// carries beside its class and body size is passed over, and so is what a
/// heartbeat carries.
pub open spec fn content(kind: u8, channel: u16, payload: Seq<u8>) -> Result<FrameView, Error> {
    if kind == KIND_METHOD {
        if payload.len() < 4 {
            Err(Error::ArgumentPastFrame)
        } else {
            Ok(
                FrameView::Method {
                    channel,
                    class: octets::big_endian_value(payload.take(2)) as u16,
                    method: octets::big_endian_value(payload.subrange(2, 4)) as u16,
                    arguments: payload.skip(4),
                },
            )
        }
    } else if kind == KIND_HEADER {
        if payload.len() < 12 {
            Err(Error::ArgumentPastFrame)
        } else {
            Ok(
                FrameView::Header {
                    channel,
                    class: octets::big_endian_value(payload.take(2)) as u16,
                    body_size: octets::big_endian_value(payload.subrange(4, 12)) as u64,
                },
            )
        }
    } else if kind == KIND_BODY {
        Ok(FrameView::Body { channel, bytes: payload })
    } else {
        Ok(FrameView::Heartbeat)
    }
}

/// What stands at the start of some octets.
pub enum Scanned {
    /// Nothing: they are at their end.
    Closed,
    /// A frame, and what follows it.
    Frame { frame: FrameView, rest: Seq<u8> },
    /// What is not a frame, and what follows what was read of it.
    Refused { error: Error, rest: Seq<u8> },
}

/// What stands after a payload: the frame end.
pub open spec fn scan_end(kind: u8, channel: u16, payload: Seq<u8>, octets: Seq<u8>) -> Scanned {
    if octets.len() == 0 {
        Scanned::Refused { error: Error::BrokeOff { part: Part::End }, rest: Seq::empty() }
    } else if octets[0] != FRAME_END {
        Scanned::Refused { error: Error::UnclosedFrame, rest: octets.skip(1) }
    } else {
        match content(kind, channel, payload) {
            Ok(frame) => Scanned::Frame { frame, rest: octets.skip(1) },
            Err(error) => Scanned::Refused { error, rest: octets.skip(1) },
        }
    }
}

/// What stands after the head of a frame: a payload of `size`.
pub open spec fn scan_payload(kind: u8, channel: u16, size: nat, octets: Seq<u8>) -> Scanned {
    if octets.len() < size {
        Scanned::Refused { error: Error::BrokeOff { part: Part::Payload }, rest: Seq::empty() }
    } else {
        scan_end(kind, channel, octets.take(size as int), octets.skip(size as int))
    }
}

/// What stands after a known type: the channel and the size.
pub open spec fn scan_head(kind: u8, octets: Seq<u8>) -> Scanned {
    if octets.len() < 6 {
        Scanned::Refused { error: Error::BrokeOff { part: Part::Header }, rest: Seq::empty() }
    } else {
        scan_payload(
            kind,
            octets::big_endian_value(octets.take(2)) as u16,
            octets::big_endian_value(octets.subrange(2, 6)),
            octets.skip(6),
        )
    }
}

/// What stands at the start of `octets`.
pub open spec fn scan(octets: Seq<u8>) -> Scanned {
    if octets.len() == 0 {
        Scanned::Closed
    } else if !known_kind(octets[0]) {
        Scanned::Refused {
            error: Error::UnknownFrameType { kind: octets[0] },
            rest: octets.skip(1),
        }
    } else {
        scan_head(octets[0], octets.skip(1))
    }
}

/// How far a frame has been read.
pub enum Reading {
    /// The type comes next.
    Kind,
    /// The channel and the size come next.
    Head { kind: u8 },
    /// The payload comes next.
    Payload { kind: u8, channel: u16, size: u32 },
    /// The frame end comes next.
    End { kind: u8, channel: u16, payload: Vec<u8> },
}

/// Where the next octets of a frame lead.
pub enum Progress {
    /// There is more of it to read.
    More(Reading),
    /// It is whole.
    Whole(Frame),
}

impl Reading {
    /// What stands at the start of `octets`, where this much was read before.
    pub open spec fn scan(self, octets: Seq<u8>) -> Scanned {
        match self {
            Reading::Kind => scan(octets),
            Reading::Head { kind } => scan_head(kind, octets),
            Reading::Payload { kind, channel, size } => scan_payload(
                kind,
                channel,
                size as nat,
                octets,
            ),
            Reading::End { kind, channel, payload } => scan_end(kind, channel, payload@, octets),
        }
    }

    /// How many octets come next.
    pub open spec fn next_size(self) -> nat {
        match self {
            Reading::Kind => 1,
            Reading::Head { .. } => 6,
            Reading::Payload { size, .. } => size as nat,
            Reading::End { .. } => 1,
        }
    }

    /// The part of the frame that comes next.
    pub open spec fn next_part(self) -> Part {
        match self {
            Reading::Kind => Part::Header,
            Reading::Head { .. } => Part::Header,
            Reading::Payload { .. } => Part::Payload,
            Reading::End { .. } => Part::End,
        }
    }

    /// How many parts are left to read.
    pub open spec fn parts_left(self) -> nat {
        match self {
            Reading::Kind => 4,
            Reading::Head { .. } => 3,
            Reading::Payload { .. } => 2,
            Reading::End { .. } => 1,
        }
    }

    /// Octets that end before the next part of the frame does break it off,
    /// but for none where a frame would start.
    proof fn lemma_broke_off(self, octets: Seq<u8>)
        requires
            octets.len() < self.next_size(),
        ensures
            self.scan(octets) is Closed || self.scan(octets) == (Scanned::Refused {
                error: Error::BrokeOff { part: self.next_part() },
                rest: Seq::empty(),
            }),
    {
    }

    /// How many octets to read next.
    #[must_use]
    pub fn wanted(&self) -> (count: u32)
        ensures
            count == self.next_size(),
    {
        match self {
            Reading::Kind => 1,
            Reading::Head { .. } => 6,
            Reading::Payload { size, .. } => *size,
            Reading::End { .. } => 1,
        }
    }

    /// The part of the frame to read next.
    #[must_use]
    pub fn part(&self) -> (part: Part)
        ensures
            part == self.next_part(),
    {
        match self {
            Reading::Kind => Part::Header,
            Reading::Head { .. } => Part::Header,
            Reading::Payload { .. } => Part::Payload,
            Reading::End { .. } => Part::End,
        }
    }

    /// Go on with the octets that were read, which are as many as were wanted.
    ///
    /// # Errors
    /// A frame type AMQP does not have, a payload not closed by the frame end,
    /// or one too short for its type.
    pub fn supply(self, octets: Vec<u8>) -> (progress: Result<Progress, Error>)
        requires
            octets@.len() == self.next_size(),
        ensures
            match progress {
                Ok(Progress::More(next)) => {
                    &&& next.parts_left() < self.parts_left()
                    &&& forall|rest: Seq<u8>|
                        #[trigger] self.scan(octets@ + rest) == next.scan(rest)
                },
                Ok(Progress::Whole(frame)) => forall|rest: Seq<u8>|
                    #[trigger] self.scan(octets@ + rest) == (Scanned::Frame {
                        frame: frame.deep_view(),
                        rest,
                    }),
                Err(error) => forall|rest: Seq<u8>|
                    #[trigger] self.scan(octets@ + rest) == (Scanned::Refused { error, rest }),
            },
    {
        proof {
            assert forall|rest: Seq<u8>| #[trigger] (octets@ + rest).skip(octets@.len() as int)
                == rest by {
                assert((octets@ + rest).skip(octets@.len() as int) =~= rest);
            }
            assert forall|rest: Seq<u8>| #[trigger] (octets@ + rest).take(octets@.len() as int)
                == octets@ by {
                assert((octets@ + rest).take(octets@.len() as int) =~= octets@);
            }
        }
        match self {
            Reading::Kind => {
                let kind: u8 = octets[0];
                if kind == KIND_METHOD || kind == KIND_HEADER || kind == KIND_BODY || kind
                    == KIND_HEARTBEAT {
                    Ok(Progress::More(Reading::Head { kind }))
                } else {
                    Err(Error::UnknownFrameType { kind })
                }
            },
            Reading::Head { kind } => {
                let first = vstd::slice::slice_subrange(octets.as_slice(), 0, 2);
                let second = vstd::slice::slice_subrange(octets.as_slice(), 2, 6);
                proof {
                    octets::lemma_big_endian_value_bound(first@);
                    octets::lemma_big_endian_value_bound(second@);
                    octets::lemma_octet_spans();
                    assert forall|rest: Seq<u8>| #[trigger] (octets@ + rest).take(2) == first@ by {
                        assert((octets@ + rest).take(2) =~= first@);
                    }
                    assert forall|rest: Seq<u8>| #[trigger] (octets@ + rest).subrange(2, 6)
                        == second@ by {
                        assert((octets@ + rest).subrange(2, 6) =~= second@);
                    }
                }
                let channel: u16 = number(first) as u16;
                let size: u32 = number(second) as u32;
                Ok(Progress::More(Reading::Payload { kind, channel, size }))
            },
            Reading::Payload { kind, channel, .. } => Ok(
                Progress::More(Reading::End { kind, channel, payload: octets }),
            ),
            Reading::End { kind, channel, payload } => {
                if octets[0] != FRAME_END {
                    return Err(Error::UnclosedFrame);
                }
                match frame_of(kind, channel, payload) {
                    Ok(frame) => Ok(Progress::Whole(frame)),
                    Err(error) => Err(error),
                }
            },
        }
    }
}

/// The frame that a payload makes.
fn frame_of(kind: u8, channel: u16, payload: Vec<u8>) -> (frame: Result<Frame, Error>)
    ensures
        match content(kind, channel, payload@) {
            Ok(view) => frame matches Ok(frame) && frame.deep_view() == view,
            Err(error) => frame == Err::<Frame, Error>(error),
        },
{
    if kind == KIND_METHOD {
        let mut fields = Reader::new(&payload);
        let class: u16 = match fields.short() {
            Ok(class) => class,
            Err(error) => return Err(error),
        };
        let method: u16 = match fields.short() {
            Ok(method) => method,
            Err(error) => return Err(error),
        };
        let arguments = vstd::slice::slice_to_vec(fields.rest());
        proof {
            assert(payload@.skip(2).take(2) =~= payload@.subrange(2, 4));
            assert(arguments@ =~= payload@.skip(4));
        }
        Ok(Frame::Method { channel, class, method, arguments })
    } else if kind == KIND_HEADER {
        let mut fields = Reader::new(&payload);
        let class: u16 = match fields.short() {
            Ok(class) => class,
            Err(error) => return Err(error),
        };
        match fields.short() {
            Ok(_) => {},
            Err(error) => return Err(error),
        }
        let body_size: u64 = match fields.longlong() {
            Ok(body_size) => body_size,
            Err(error) => return Err(error),
        };
        proof {
            assert(payload@.skip(2).skip(2).take(8) =~= payload@.subrange(4, 12));
        }
        Ok(Frame::Header { channel, class, body_size })
    } else if kind == KIND_BODY {
        Ok(Frame::Body { channel, bytes: payload })
    } else {
        Ok(Frame::Heartbeat)
    }
}

/// Read the next part of a frame off the start of `reader`.
fn read_part(reader: &mut &[u8], reading: Reading) -> (progress: Result<Progress, Error>)
    requires
        !(reading.scan(old(reader)@) is Closed),
    ensures
        match progress {
            Ok(Progress::More(next)) => {
                &&& next.parts_left() < reading.parts_left()
                &&& next.scan(final(reader)@) == reading.scan(old(reader)@)
            },
            Ok(Progress::Whole(frame)) => reading.scan(old(reader)@) == (Scanned::Frame {
                frame: frame.deep_view(),
                rest: final(reader)@,
            }),
            Err(error) => reading.scan(old(reader)@) == (Scanned::Refused {
                error,
                rest: final(reader)@,
            }),
        },
{
    let count: usize = reading.wanted() as usize;
    let all: &[u8] = *reader;
    if all.len() < count {
        proof {
            reading.lemma_broke_off(all@);
        }
        *reader = vstd::slice::slice_subrange(all, all.len(), all.len());
        assert(reader@ =~= Seq::empty());
        return Err(Error::BrokeOff { part: reading.part() });
    }
    let octets = vstd::slice::slice_to_vec(vstd::slice::slice_subrange(all, 0, count));
    *reader = vstd::slice::slice_subrange(all, count, all.len());
    assert(all@ =~= octets@ + reader@);
    reading.supply(octets)
}

/// Read one frame off the start of `reader`, or `None` when it is at its end
/// between frames.
///
/// # Errors
/// A frame that breaks off, a frame type AMQP does not have, a payload not
/// closed by the frame end, or one too short for its type.
pub fn read(reader: &mut &[u8]) -> (frame: Result<Option<Frame>, Error>)
    ensures
        match scan(old(reader)@) {
            Scanned::Closed => frame == Ok::<Option<Frame>, Error>(None) && final(reader)@
                == old(reader)@,
            Scanned::Frame { frame: view, rest } => {
                &&& frame matches Ok(Some(frame)) && frame.deep_view() == view
                &&& final(reader)@ == rest
            },
            Scanned::Refused { error, rest } => {
                &&& frame == Err::<Option<Frame>, Error>(error)
                &&& final(reader)@ == rest
            },
        },
{
    if reader.len() == 0 {
        return Ok(None);
    }
    let ghost scanned = scan(reader@);
    let mut reading = Reading::Kind;
    loop
        invariant
            reading.scan(reader@) == scanned,
            !(scanned is Closed),
            scanned == scan(old(reader)@),
        decreases reading.parts_left(),
    {
        match read_part(reader, reading) {
            Ok(Progress::More(next)) => {
                reading = next;
            },
            Ok(Progress::Whole(frame)) => {
                return Ok(Some(frame));
            },
            Err(error) => {
                return Err(error);
            },
        }
    }
}

/// A peer that opens with what is not a frame type does not speak AMQP: it is
/// refused by the first octet, whatever follows, and that does not pass.
pub proof fn what_is_no_frame_is_refused(octets: Seq<u8>)
    requires
        octets.len() > 0,
        octets[0] != 1 && octets[0] != 2 && octets[0] != 3 && octets[0] != 8,
    ensures
        scan(octets) matches Scanned::Refused { error, rest } && error
            == (Error::UnknownFrameType { kind: octets[0] }) && rest == octets.skip(1)
            && !error::may_pass(error.deep_view()),
{
}

/// All the frames that `octets` hold, where they hold nothing else.
pub open spec fn scan_all(octets: Seq<u8>) -> Option<Seq<FrameView>>
    decreases octets.len(),
{
    match scan(octets) {
        Scanned::Closed => Some(Seq::empty()),
        Scanned::Frame { frame, rest } => if rest.len() < octets.len() {
            match scan_all(rest) {
                Some(frames) => Some(seq![frame] + frames),
                None => None,
            }
        } else {
            None
        },
        Scanned::Refused { .. } => None,
    }
}

/// A payload makes the frame it was written for.
proof fn lemma_content_round_trip(frame: FrameView)
    ensures
        content(frame.kind(), frame.channel(), frame.payload()) == Ok::<FrameView, Error>(frame),
{
    octets::lemma_octet_spans();
    let payload = frame.payload();
    match frame {
        FrameView::Method { channel, class, method, arguments } => {
            let after_class = octets::big_endian(method as nat, 2) + arguments;
            arguments::numbers_round_trip(class as nat, 2, after_class);
            arguments::numbers_round_trip(method as nat, 2, arguments);
            assert(payload =~= octets::big_endian(class as nat, 2) + after_class);
            assert(payload.subrange(2, 4) =~= payload.skip(2).take(2));
            assert(payload.skip(4) =~= payload.skip(2).skip(2));
        },
        FrameView::Header { channel, class, body_size } => {
            let end = octets::big_endian(0, 2);
            let size = octets::big_endian(body_size as nat, 8);
            let after_class = octets::big_endian(0, 2) + size + end;
            arguments::numbers_round_trip(class as nat, 2, after_class);
            arguments::numbers_round_trip(0, 2, size + end);
            arguments::numbers_round_trip(body_size as nat, 8, end);
            assert(payload =~= octets::big_endian(class as nat, 2) + after_class);
            assert(after_class =~= octets::big_endian(0, 2) + (size + end));
            assert(payload.subrange(4, 12) =~= payload.skip(2).skip(2).take(8));
        },
        FrameView::Body { .. } => {},
        FrameView::Heartbeat => {},
    }
}

/// A frame whose size its size field can spell is read back from its octets,
/// and what follows them is left.
pub proof fn frames_round_trip(frame: FrameView, tail: Seq<u8>)
    requires
        frame.sized(),
    ensures
        scan(frame.encoded() + tail) == (Scanned::Frame { frame, rest: tail }),
{
    octets::lemma_octet_spans();
    lemma_content_round_trip(frame);
    let payload = frame.payload();
    let channel = octets::big_endian(frame.channel() as nat, 2);
    let size = arguments::length_field(payload.len());
    let octets = frame.encoded() + tail;
    let after_kind = octets.skip(1);
    let end = seq![FRAME_END] + tail;
    arguments::numbers_round_trip(frame.channel() as nat, 2, size + payload + end);
    arguments::numbers_round_trip(payload.len(), 4, payload + end);
    assert(after_kind =~= channel + (size + payload + end));
    assert(size + payload + end =~= size + (payload + end));
    assert(after_kind.subrange(2, 6) =~= after_kind.skip(2).take(4));
    assert(after_kind.skip(6) =~= after_kind.skip(2).skip(4));
    assert((payload + end).take(payload.len() as int) =~= payload);
    assert((payload + end).skip(payload.len() as int) =~= end);
    assert(end.skip(1) =~= tail);
}

/// Frames written one after the other are read back one after the other, and
/// then there is nothing left.
pub proof fn streams_round_trip(frames: Seq<FrameView>)
    requires
        forall|i: int| 0 <= i < frames.len() ==> (#[trigger] frames[i]).sized(),
    ensures
        scan_all(encoded_all(frames)) == Some(frames),
    decreases frames.len(),
{
    if frames.len() > 0 {
        let rest = frames.skip(1);
        frames_round_trip(frames[0], encoded_all(rest));
        assert forall|i: int| 0 <= i < rest.len() implies (#[trigger] rest[i]).sized() by {
            assert(rest[i] == frames[i + 1]);
        }
        streams_round_trip(rest);
        assert(seq![frames[0]] + rest =~= frames);
    } else {
        assert(frames =~= Seq::empty());
    }
}

/// A frame as any peer writes it: a type, a channel, a payload and its end.
pub open spec fn on_the_wire(kind: u8, channel: u16, payload: Seq<u8>, end: u8) -> Seq<u8> {
    seq![kind] + octets::big_endian(channel as nat, 2) + octets::big_endian(payload.len(), 4)
        + payload + seq![end]
}

/// A frame whose type there is comes down to its payload and its end.
proof fn lemma_on_the_wire(kind: u8, channel: u16, payload: Seq<u8>, end: u8, tail: Seq<u8>)
    requires
        payload.len() <= u32::MAX,
    ensures
        known_kind(kind) ==> scan(on_the_wire(kind, channel, payload, end) + tail) == scan_end(
            kind,
            channel,
            payload,
            seq![end] + tail,
        ),
        on_the_wire(kind, channel, payload, end).len() == payload.len() + 8,
{
    octets::lemma_octet_spans();
    let spelled = octets::big_endian(channel as nat, 2);
    let size = octets::big_endian(payload.len(), 4);
    let after = seq![end] + tail;
    let input = on_the_wire(kind, channel, payload, end) + tail;
    let after_kind = input.skip(1);
    octets::lemma_big_endian_len(channel as nat, 2);
    octets::lemma_big_endian_len(payload.len(), 4);
    arguments::numbers_round_trip(channel as nat, 2, size + payload + after);
    arguments::numbers_round_trip(payload.len(), 4, payload + after);
    assert(after_kind =~= spelled + (size + payload + after));
    assert(size + payload + after =~= size + (payload + after));
    assert(after_kind.subrange(2, 6) =~= after_kind.skip(2).take(4));
    assert(after_kind.skip(6) =~= after_kind.skip(2).skip(4));
    assert((payload + after).take(payload.len() as int) =~= payload);
    assert((payload + after).skip(payload.len() as int) =~= after);
}

/// A method frame of any peer is read: its class, its method, and all that
/// follows them as its arguments.
pub proof fn methods_of_any_peer_are_read(
    channel: u16,
    class: u16,
    method: u16,
    arguments: Seq<u8>,
    tail: Seq<u8>,
)
    requires
        4 + arguments.len() <= u32::MAX,
    ensures
        scan(
            on_the_wire(
                1,
                channel,
                octets::big_endian(class as nat, 2) + octets::big_endian(method as nat, 2)
                    + arguments,
                0xce,
            ) + tail,
        ) == (Scanned::Frame {
            frame: FrameView::Method { channel, class, method, arguments },
            rest: tail,
        }),
{
    let frame = FrameView::Method { channel, class, method, arguments };
    octets::lemma_big_endian_len(class as nat, 2);
    octets::lemma_big_endian_len(method as nat, 2);
    lemma_content_round_trip(frame);
    lemma_on_the_wire(1, channel, frame.payload(), 0xce, tail);
    assert((seq![0xceu8] + tail).skip(1) =~= tail);
}

/// A content header of any peer is read, whatever its weight and whatever
/// properties follow its body size, which are passed over.
#[verifier::rlimit(40)]
pub proof fn headers_of_any_peer_are_read(
    channel: u16,
    class: u16,
    weight: u16,
    body_size: u64,
    properties: Seq<u8>,
    tail: Seq<u8>,
)
    requires
        12 + properties.len() <= u32::MAX,
    ensures
        scan(
            on_the_wire(
                2,
                channel,
                octets::big_endian(class as nat, 2) + octets::big_endian(weight as nat, 2)
                    + octets::big_endian(body_size as nat, 8) + properties,
                0xce,
            ) + tail,
        ) == (Scanned::Frame {
            frame: FrameView::Header { channel, class, body_size },
            rest: tail,
        }),
{
    octets::lemma_octet_spans();
    let size = octets::big_endian(body_size as nat, 8);
    let after_class = octets::big_endian(weight as nat, 2) + size + properties;
    let payload = octets::big_endian(class as nat, 2) + octets::big_endian(weight as nat, 2) + size
        + properties;
    octets::lemma_big_endian_len(class as nat, 2);
    octets::lemma_big_endian_len(weight as nat, 2);
    octets::lemma_big_endian_len(body_size as nat, 8);
    arguments::numbers_round_trip(class as nat, 2, after_class);
    arguments::numbers_round_trip(weight as nat, 2, size + properties);
    arguments::numbers_round_trip(body_size as nat, 8, properties);
    assert(payload =~= octets::big_endian(class as nat, 2) + after_class);
    assert(after_class =~= octets::big_endian(weight as nat, 2) + (size + properties));
    assert(payload.subrange(4, 12) =~= payload.skip(2).skip(2).take(8));
    lemma_on_the_wire(2, channel, payload, 0xce, tail);
    assert((seq![0xceu8] + tail).skip(1) =~= tail);
}

/// A body frame of any peer is read with all it carries, and a heartbeat
/// whatever it carries and on whatever channel.
pub proof fn bodies_and_heartbeats_of_any_peer_are_read(
    channel: u16,
    payload: Seq<u8>,
    tail: Seq<u8>,
)
    requires
        payload.len() <= u32::MAX,
    ensures
        scan(on_the_wire(3, channel, payload, 0xce) + tail) == (Scanned::Frame {
            frame: FrameView::Body { channel, bytes: payload },
            rest: tail,
        }),
        scan(on_the_wire(8, channel, payload, 0xce) + tail) == (Scanned::Frame {
            frame: FrameView::Heartbeat,
            rest: tail,
        }),
{
    lemma_on_the_wire(3, channel, payload, 0xce, tail);
    lemma_on_the_wire(8, channel, payload, 0xce, tail);
    assert((seq![0xceu8] + tail).skip(1) =~= tail);
}

/// What closes a frame must be the frame end, a method needs a class and a
/// method, and a content header a class, a weight and a body size. What is not
/// so is refused, and what follows the frame is left.
pub proof fn faulty_frames_are_refused(
    kind: u8,
    channel: u16,
    payload: Seq<u8>,
    end: u8,
    tail: Seq<u8>,
)
    requires
        payload.len() <= u32::MAX,
        kind == 1 || kind == 2 || kind == 3 || kind == 8,
    ensures
        ({
            let scanned = scan(on_the_wire(kind, channel, payload, end) + tail);
            let short = (kind == 1 && payload.len() < 4) || (kind == 2 && payload.len() < 12);
            &&& end != 0xce ==> scanned == (Scanned::Refused {
                error: Error::UnclosedFrame,
                rest: tail,
            })
            &&& end == 0xce && short ==> scanned == (Scanned::Refused {
                error: Error::ArgumentPastFrame,
                rest: tail,
            })
            &&& end == 0xce && !short ==> (scanned matches Scanned::Frame { rest, .. } && rest
                == tail)
        }),
{
    lemma_on_the_wire(kind, channel, payload, end, tail);
    assert((seq![end] + tail).skip(1) =~= tail);
}

/// A frame that is cut anywhere breaks off, in its head, in its payload or
/// before its end, and nothing is left. Where nothing of it is there, the input
/// is at its end.
#[verifier::rlimit(40)]
pub proof fn cut_frames_break_off(kind: u8, channel: u16, payload: Seq<u8>, end: u8, cut: nat)
    requires
        payload.len() <= u32::MAX,
        kind == 1 || kind == 2 || kind == 3 || kind == 8,
        cut < payload.len() + 8,
    ensures
        ({
            let scanned = scan(on_the_wire(kind, channel, payload, end).take(cut as int));
            if cut == 0 {
                scanned is Closed
            } else {
                scanned == (Scanned::Refused {
                    error: Error::BrokeOff {
                        part: if cut < 7 {
                            Part::Header
                        } else if cut < 7 + payload.len() {
                            Part::Payload
                        } else {
                            Part::End
                        },
                    },
                    rest: Seq::empty(),
                })
            }
        }),
{
    octets::lemma_octet_spans();
    let whole = on_the_wire(kind, channel, payload, end);
    let input = whole.take(cut as int);
    let spelled = octets::big_endian(channel as nat, 2);
    let size = octets::big_endian(payload.len(), 4);
    octets::lemma_big_endian_len(channel as nat, 2);
    octets::lemma_big_endian_len(payload.len(), 4);
    octets::lemma_big_endian_round_trip(payload.len(), 4);
    octets::lemma_big_endian_round_trip(channel as nat, 2);
    if cut >= 7 {
        let after_kind = input.skip(1);
        assert(after_kind.take(2) =~= spelled);
        assert(after_kind.subrange(2, 6) =~= size);
        let after_head = after_kind.skip(6);
        assert(after_head.len() == cut - 7);
        if cut == 7 + payload.len() {
            assert(after_head.take(payload.len() as int) =~= payload);
            assert(after_head.skip(payload.len() as int) =~= Seq::empty());
        }
    }
}

/// Each frame is written as its type, its channel, the size of its payload, the
/// payload and the frame end. A method's payload is its class, its method and
/// its arguments, a content header's its class, no weight, its body size and no
/// properties, a body's its octets, and a heartbeat has none.
#[verifier::rlimit(40)]
pub proof fn frames_are_written_as_their_type_says(
    channel: u16,
    class: u16,
    method: u16,
    body_size: u64,
    octets: Seq<u8>,
)
    requires
        4 + octets.len() <= u32::MAX,
    ensures
        (FrameView::Method { channel, class, method, arguments: octets }).encoded() == on_the_wire(
            1,
            channel,
            octets::big_endian(class as nat, 2) + octets::big_endian(method as nat, 2) + octets,
            0xce,
        ),
        (FrameView::Header { channel, class, body_size }).encoded() == on_the_wire(
            2,
            channel,
            octets::big_endian(class as nat, 2) + seq![0u8, 0u8] + octets::big_endian(
                body_size as nat,
                8,
            ) + seq![0u8, 0u8],
            0xce,
        ),
        (FrameView::Body { channel, bytes: octets }).encoded() == on_the_wire(
            3,
            channel,
            octets,
            0xce,
        ),
        FrameView::Heartbeat.encoded() == seq![8u8, 0u8, 0u8, 0u8, 0u8, 0u8, 0u8, 0xceu8],
{
    octets::lemma_big_endian_len(class as nat, 2);
    octets::lemma_big_endian_len(method as nat, 2);
    octets::lemma_big_endian_len(body_size as nat, 8);
    reveal_with_fuel(octets::big_endian, 5);
    assert(octets::big_endian(0, 2) =~= seq![0u8, 0u8]);
    assert(octets::big_endian(0, 4) =~= seq![0u8, 0u8, 0u8, 0u8]);
    assert(FrameView::Heartbeat.encoded() =~= seq![
        8u8,
        0u8,
        0u8,
        0u8,
        0u8,
        0u8,
        0u8,
        0xceu8,
    ]);
}

/// A frame in words names its type and every field, octets in brackets with a
/// comma after all but the last.
pub proof fn frames_are_described_field_by_field(
    channel: u16,
    class: u16,
    method: u16,
    body_size: u64,
    octets: Seq<u8>,
    last: u8,
)
    ensures
        listed(Seq::empty()).len() == 0,
        listed(seq![last]) == text::decimal(last as nat),
        octets.len() > 0 ==> listed(octets.push(last)) == listed(octets) + ", "@ + text::decimal(
            last as nat,
        ),
        described(FrameView::Method { channel, class, method, arguments: octets })
            == "Method { channel: "@ + text::decimal(channel as nat) + ", class: "@ + text::decimal(
            class as nat,
        ) + ", method: "@ + text::decimal(method as nat) + ", arguments: "@ + ("["@ + listed(octets)
            + "]"@) + " }"@,
        described(FrameView::Header { channel, class, body_size }) == "Header { channel: "@
            + text::decimal(channel as nat) + ", class: "@ + text::decimal(class as nat)
            + ", body_size: "@ + text::decimal(body_size as nat) + " }"@,
        described(FrameView::Body { channel, bytes: octets }) == "Body { channel: "@
            + text::decimal(channel as nat) + ", bytes: "@ + ("["@ + listed(octets) + "]"@)
            + " }"@,
        described(FrameView::Heartbeat) == "Heartbeat"@,
{
    assert(octets.push(last).drop_last() =~= octets);
}

} // verus!

//! The content of a publish or a delivery: a header that tells its size, and
//! the body in frames.
use vstd::prelude::*;

use crate::error::{Error, ErrorView};
use crate::frame::{Frame, FrameView, CLASS_BASIC};

verus! {

/// One message that arrived: its bytes, and where they came from.
#[derive(Clone, Debug, PartialEq, Eq)]
pub struct Arrived {
    pub origin_uri: String,
    pub bytes: Vec<u8>,
}

/// One message that arrived.
pub struct ArrivedView {
    pub origin_uri: Seq<char>,
    pub bytes: Seq<u8>,
}

impl DeepView for Arrived {
    type V = ArrivedView;

    open spec fn deep_view(&self) -> ArrivedView {
        ArrivedView { origin_uri: self.origin_uri@, bytes: self.bytes@ }
    }
}

/// `body` cut into pieces of `size`, the last one as long as what is left.
pub open spec fn chunks(body: Seq<u8>, size: nat) -> Seq<Seq<u8>>
    decreases body.len(),
{
    if body.len() == 0 || size == 0 {
        Seq::empty()
    } else if body.len() <= size {
        seq![body]
    } else {
        seq![body.take(size as int)] + chunks(body.skip(size as int), size)
    }
}

/// A body in frames that each carry at most `size`.
pub open spec fn body_frames(body: Seq<u8>, size: nat) -> Seq<FrameView> {
    chunks(body, size).map_values(|piece: Seq<u8>| FrameView::Body { channel: 1, bytes: piece })
}

/// The content header of `body`.
pub open spec fn header_frame(body: Seq<u8>) -> FrameView {
    FrameView::Header { channel: 1, class: CLASS_BASIC, body_size: body.len() as u64 }
}

/// The content header of `body`, and the body in frames that each carry at
/// most `size`.
pub open spec fn content_frames(body: Seq<u8>, size: nat) -> Seq<FrameView> {
    seq![header_frame(body)] + body_frames(body, size)
}

/// The pieces of a body, one after the other.
pub open spec fn joined(pieces: Seq<Seq<u8>>) -> Seq<u8>
    decreases pieces.len(),
{
    if pieces.len() == 0 {
        Seq::empty()
    } else {
        pieces[0] + joined(pieces.skip(1))
    }
}

/// The pieces of a body make it up, and none is empty or longer than asked.
pub proof fn chunks_make_up_the_body(body: Seq<u8>, size: nat)
    requires
        size > 0,
    ensures
        joined(chunks(body, size)) == body,
        forall|i: int|
            0 <= i < chunks(body, size).len() ==> 0 < (#[trigger] chunks(body, size)[i]).len()
                <= size,
    decreases body.len(),
{
    if body.len() == 0 {
        assert(body =~= Seq::empty());
    } else if body.len() <= size {
        let pieces = chunks(body, size);
        assert(pieces.skip(1) =~= Seq::empty());
        assert(joined(pieces) =~= body) by {
            reveal_with_fuel(joined, 2);
        }
    } else {
        let first = body.take(size as int);
        let rest = body.skip(size as int);
        chunks_make_up_the_body(rest, size);
        assert(chunks(body, size).skip(1) =~= chunks(rest, size));
        assert(first + rest =~= body);
        assert forall|i: int| 0 <= i < chunks(body, size).len() implies 0 < (#[trigger] chunks(
            body,
            size,
        )[i]).len() <= size by {
            if i > 0 {
                assert(chunks(body, size)[i] == chunks(rest, size)[i - 1]);
            }
        }
    }
}

/// The first frame of a body that is not empty, and the frames of the rest.
pub proof fn lemma_body_frames_step(body: Seq<u8>, size: nat)
    requires
        size > 0,
        body.len() > 0,
    ensures
        ({
            let length = if body.len() <= size {
                body.len()
            } else {
                size
            };
            body_frames(body, size) == seq![
                FrameView::Body { channel: 1, bytes: body.take(length as int) },
            ] + body_frames(body.skip(length as int), size)
        }),
{
    if body.len() <= size {
        assert(body.take(body.len() as int) =~= body);
        assert(body.skip(body.len() as int) =~= Seq::empty());
    }
    let length = if body.len() <= size {
        body.len()
    } else {
        size
    };
    assert(body_frames(body, size) =~= seq![
        FrameView::Body { channel: 1, bytes: body.take(length as int) },
    ] + body_frames(body.skip(length as int), size));
}

/// Append the content header of `body`, and the body in frames that each
/// carry at most `size`.
pub fn put_content(frames: &mut Vec<Frame>, body: &[u8], size: usize)
    requires
        size > 0,
    ensures
        final(frames).deep_view() == old(frames).deep_view() + content_frames(body@, size as nat),
{
    frames.push(Frame::Header { channel: 1, class: CLASS_BASIC, body_size: body.len() as u64 });
    assert(frames.deep_view() =~= old(frames).deep_view() + seq![header_frame(body@)]);
    let mut at: usize = 0;
    proof {
        assert(body@.skip(0) =~= body@);
        assert(frames.deep_view() + body_frames(body@, size as nat) =~= old(frames).deep_view()
            + content_frames(body@, size as nat));
    }
    while at < body.len()
        invariant
            at <= body@.len(),
            size > 0,
            frames.deep_view() + body_frames(body@.skip(at as int), size as nat) == old(
                frames,
            ).deep_view() + content_frames(body@, size as nat),
        decreases body@.len() - at,
    {
        let left: usize = body.len() - at;
        let length: usize = if left <= size {
            left
        } else {
            size
        };
        let piece = vstd::slice::slice_subrange(body, at, at + length);
        let ghost before = frames.deep_view();
        frames.push(Frame::Body { channel: 1, bytes: vstd::slice::slice_to_vec(piece) });
        proof {
            let rest = body@.skip(at as int);
            lemma_body_frames_step(rest, size as nat);
            assert(piece@ =~= rest.take(length as int));
            assert(rest.skip(length as int) =~= body@.skip(at + length));
            let next = body_frames(body@.skip(at + length), size as nat);
            assert(frames.deep_view() =~= before + seq![
                FrameView::Body { channel: 1, bytes: piece@ },
            ]);
            assert(frames.deep_view() + next =~= before + (seq![
                FrameView::Body { channel: 1, bytes: piece@ },
            ] + next));
        }
        at = at + length;
    }
    assert(body_frames(body@.skip(at as int), size as nat) =~= Seq::empty());
    assert(frames.deep_view() + Seq::empty() =~= frames.deep_view());
}

/// Content that is on its way: its size once its header is here, and what has
/// come of its body.
pub struct Incoming {
    pub size: Option<u64>,
    pub bytes: Vec<u8>,
}

/// Content that is on its way.
pub struct IncomingView {
    pub size: Option<u64>,
    pub bytes: Seq<u8>,
}

impl DeepView for Incoming {
    type V = IncomingView;

    open spec fn deep_view(&self) -> IncomingView {
        IncomingView { size: self.size, bytes: self.bytes@ }
    }
}

/// What content is after another frame.
pub enum Gathered {
    /// More of it is on its way.
    More(Incoming),
    /// The body is whole.
    Whole(Vec<u8>),
    /// The frame did not belong to it.
    Failed(Error),
}

/// What content is after another frame.
pub enum GatheredView {
    More(IncomingView),
    Whole(Seq<u8>),
    Failed(ErrorView),
}

impl DeepView for Gathered {
    type V = GatheredView;

    open spec fn deep_view(&self) -> GatheredView {
        match self {
            Gathered::More(incoming) => GatheredView::More(incoming.deep_view()),
            Gathered::Whole(body) => GatheredView::Whole(body@),
            Gathered::Failed(error) => GatheredView::Failed(error.deep_view()),
        }
    }
}

impl IncomingView {
    /// Content of which nothing has come.
    pub open spec fn nothing() -> IncomingView {
        IncomingView { size: None, bytes: Seq::empty() }
    }

    /// A body is whole once it is as long as its header said, or longer.
    pub open spec fn settled(self) -> GatheredView {
        if self.size matches Some(size) && self.bytes.len() >= size {
            GatheredView::Whole(self.bytes)
        } else {
            GatheredView::More(self)
        }
    }

    /// After another frame, `None` where the peer closed: the header comes
    /// first, and then nothing but body frames. `missing` is what is wrong
    /// where the header is not there.
    pub open spec fn gather(self, frame: Option<FrameView>, missing: ErrorView) -> GatheredView {
        match (self.size, frame) {
            (None, Some(FrameView::Header { body_size, .. })) => IncomingView {
                size: Some(body_size),
                bytes: self.bytes,
            }.settled(),
            (None, _) => GatheredView::Failed(missing),
            (Some(_), Some(FrameView::Body { bytes, .. })) => IncomingView {
                size: self.size,
                bytes: self.bytes + bytes,
            }.settled(),
            (Some(_), _) => GatheredView::Failed(ErrorView::BodyBrokeOff),
        }
    }
}

impl Incoming {
    /// Content of which nothing has come.
    #[must_use]
    pub fn new() -> (incoming: Self)
        ensures
            incoming.deep_view() == IncomingView::nothing(),
    {
        Incoming { size: None, bytes: Vec::new() }
    }

    /// Whether the body is whole.
    fn settle(self) -> (gathered: Gathered)
        ensures
            gathered.deep_view() == self.deep_view().settled(),
    {
        match self.size {
            Some(size) if self.bytes.len() as u64 >= size => Gathered::Whole(self.bytes),
            _ => Gathered::More(self),
        }
    }

    /// Go on with the next frame, `None` where the peer closed.
    pub fn gather(self, frame: Option<Frame>, missing: Error) -> (gathered: Gathered)
        ensures
            gathered.deep_view() == self.deep_view().gather(
                frame.deep_view(),
                missing.deep_view(),
            ),
    {
        match (self.size, frame) {
            (None, Some(Frame::Header { body_size, .. })) => Incoming {
                size: Some(body_size),
                bytes: self.bytes,
            }.settle(),
            (None, _) => Gathered::Failed(missing),
            (Some(size), Some(Frame::Body { bytes, .. })) => {
                let mut whole = self.bytes;
                whole.extend_from_slice(&bytes);
                assert(whole@ =~= self.bytes@ + bytes@);
                Incoming { size: Some(size), bytes: whole }.settle()
            },
            (Some(_), _) => Gathered::Failed(Error::BodyBrokeOff),
        }
    }
}

/// Every piece of a body but the last is as long as it may be.
pub proof fn chunks_are_as_long_as_they_may_be(body: Seq<u8>, size: nat, i: int)
    requires
        size > 0,
        0 <= i < chunks(body, size).len() - 1,
    ensures
        chunks(body, size)[i].len() == size,
    decreases body.len(),
{
    if i > 0 {
        let rest = body.skip(size as int);
        assert(chunks(body, size)[i] == chunks(rest, size)[i - 1]);
        chunks_are_as_long_as_they_may_be(rest, size, i - 1);
    }
}

/// Content is sent on channel 1: a header that tells the class and how long the
/// body is, and then the body in frames that make it up, each as long as may be
/// but the last, and none empty.
pub proof fn content_is_sent_whole(body: Seq<u8>, size: nat)
    requires
        size > 0,
        body.len() <= u64::MAX,
    ensures
        ({
            let frames = content_frames(body, size);
            let pieces = Seq::new(
                (frames.len() - 1) as nat,
                |i: int| frames[i + 1]->Body_bytes,
            );
            &&& frames[0] == (FrameView::Header {
                channel: 1,
                class: 60,
                body_size: body.len() as u64,
            })
            &&& forall|i: int|
                1 <= i < frames.len() ==> (#[trigger] frames[i] matches FrameView::Body {
                    channel,
                    bytes,
                } && channel == 1 && 0 < bytes.len() <= size && (i < frames.len() - 1
                    ==> bytes.len() == size))
            &&& joined(pieces) == body
        }),
{
    let frames = content_frames(body, size);
    let pieces = Seq::new((frames.len() - 1) as nat, |i: int| frames[i + 1]->Body_bytes);
    chunks_make_up_the_body(body, size);
    assert(pieces =~= chunks(body, size));
    assert forall|i: int| 1 <= i < frames.len() implies (
    #[trigger] frames[i] matches FrameView::Body { channel, bytes } && channel == 1 && 0
        < bytes.len() <= size && (i < frames.len() - 1 ==> bytes.len() == size)) by {
        assert(frames[i] == FrameView::Body { channel: 1, bytes: chunks(body, size)[i - 1] });
        if i < frames.len() - 1 {
            chunks_are_as_long_as_they_may_be(body, size, i - 1);
        }
    }
}

/// Content of any peer: what is gathered of it is what came, in its order. It
/// is whole with the frame that makes it as long as its header said, a header
/// that says nothing is to come being enough, and not before.
pub proof fn content_of_any_peer_is_gathered(
    before: Seq<u8>,
    size: u64,
    channel: u16,
    class: u16,
    bytes: Seq<u8>,
    missing: ErrorView,
)
    ensures
        IncomingView::nothing().size is None,
        IncomingView::nothing().bytes.len() == 0,
        ({
            let header = FrameView::Header { channel, class, body_size: size };
            let gathered = IncomingView::nothing().gather(Some(header), missing);
            let sized = IncomingView { size: Some(size), bytes: Seq::empty() };
            &&& size == 0 ==> gathered == GatheredView::Whole(Seq::empty())
            &&& size > 0 ==> gathered == GatheredView::More(sized)
        }),
        ({
            let content = IncomingView { size: Some(size), bytes: before };
            let gathered = content.gather(Some(FrameView::Body { channel, bytes }), missing);
            let more = IncomingView { size: Some(size), bytes: before + bytes };
            &&& before.len() + bytes.len() >= size ==> gathered == GatheredView::Whole(
                before + bytes,
            )
            &&& before.len() + bytes.len() < size ==> gathered == GatheredView::More(more)
        }),
{
}

/// Content whose header is missing fails as such, and content that anything but
/// a body frame breaks into broke off, a peer that closes being no better.
pub proof fn content_that_is_broken_into_fails(
    content: IncomingView,
    frame: Option<FrameView>,
    missing: ErrorView,
)
    requires
        content.size is None ==> (frame is None || !(frame->Some_0 is Header)),
        content.size is Some ==> (frame is None || !(frame->Some_0 is Body)),
    ensures
        content.size is None ==> content.gather(frame, missing) == GatheredView::Failed(missing),
        content.size is Some ==> content.gather(frame, missing) == GatheredView::Failed(
            ErrorView::BodyBrokeOff,
        ),
{
}

} // verus!

//! What one side of a connection does on each frame that reaches it.
use vstd::prelude::*;

use crate::error::{Error, ErrorView};
use crate::frame::{Frame, FrameView};

verus! {

/// How far a call has come.
pub enum Outcome<T> {
    /// It waits for the next frame.
    Waiting,
    /// It is done.
    Done(T),
    /// It failed.
    Failed(Error),
}

/// What to do about a frame: send these in their order, and then this is how
/// far the call has come.
pub struct Step<T> {
    pub send: Vec<Frame>,
    pub outcome: Outcome<T>,
}

/// How far a call has come.
pub enum OutcomeView<V> {
    Waiting,
    Done(V),
    Failed(ErrorView),
}

/// What is done about a frame.
pub struct StepView<V> {
    pub send: Seq<FrameView>,
    pub outcome: OutcomeView<V>,
}

impl<T: DeepView> DeepView for Outcome<T> {
    type V = OutcomeView<T::V>;

    open spec fn deep_view(&self) -> OutcomeView<T::V> {
        match self {
            Outcome::Waiting => OutcomeView::Waiting,
            Outcome::Done(value) => OutcomeView::Done(value.deep_view()),
            Outcome::Failed(error) => OutcomeView::Failed(error.deep_view()),
        }
    }
}

impl<T: DeepView> DeepView for Step<T> {
    type V = StepView<T::V>;

    open spec fn deep_view(&self) -> StepView<T::V> {
        StepView { send: self.send.deep_view(), outcome: self.outcome.deep_view() }
    }
}

impl<V> StepView<V> {
    /// Nothing is sent, and the next frame is awaited.
    pub open spec fn waiting() -> StepView<V> {
        StepView { send: Seq::empty(), outcome: OutcomeView::Waiting }
    }

    /// Nothing is sent, and the call is done.
    pub open spec fn done(value: V) -> StepView<V> {
        StepView { send: Seq::empty(), outcome: OutcomeView::Done(value) }
    }

    /// Nothing is sent, and the call failed.
    pub open spec fn failed(error: ErrorView) -> StepView<V> {
        StepView { send: Seq::empty(), outcome: OutcomeView::Failed(error) }
    }

    /// One frame is sent, and the next is awaited.
    pub open spec fn answering(frame: FrameView) -> StepView<V> {
        StepView { send: seq![frame], outcome: OutcomeView::Waiting }
    }

    /// The same frames are sent, and where the call is done, its value decides
    /// how far the other call has come.
    pub open spec fn followed_by<W>(self, go_on: spec_fn(V) -> OutcomeView<W>) -> StepView<W> {
        StepView {
            send: self.send,
            outcome: match self.outcome {
                OutcomeView::Waiting => OutcomeView::Waiting,
                OutcomeView::Done(value) => go_on(value),
                OutcomeView::Failed(error) => OutcomeView::Failed(error),
            },
        }
    }
}

impl<T: DeepView> Step<T> {
    /// Send nothing, and wait for the next frame.
    pub fn waiting() -> (step: Self)
        ensures
            step.deep_view() == StepView::<T::V>::waiting(),
    {
        let step = Step { send: Vec::new(), outcome: Outcome::Waiting };
        assert(step.send.deep_view() =~= Seq::empty());
        step
    }

    /// Send nothing: the call is done.
    pub fn done(value: T) -> (step: Self)
        ensures
            step.deep_view() == StepView::<T::V>::done(value.deep_view()),
    {
        let step = Step { send: Vec::new(), outcome: Outcome::Done(value) };
        assert(step.send.deep_view() =~= Seq::empty());
        step
    }

    /// Send nothing: the call failed.
    pub fn failed(error: Error) -> (step: Self)
        ensures
            step.deep_view() == StepView::<T::V>::failed(error.deep_view()),
    {
        let step = Step { send: Vec::new(), outcome: Outcome::Failed(error) };
        assert(step.send.deep_view() =~= Seq::empty());
        step
    }

    /// Send one frame, and then this is how far the call has come.
    pub fn sending(frame: Frame, outcome: Outcome<T>) -> (step: Self)
        ensures
            step.deep_view() == (StepView::<T::V> {
                send: seq![frame.deep_view()],
                outcome: outcome.deep_view(),
            }),
    {
        let mut send: Vec<Frame> = Vec::new();
        send.push(frame);
        let step = Step { send, outcome };
        assert(step.send.deep_view() =~= seq![frame.deep_view()]);
        step
    }
}

/// A step that waits, is done or failed sends nothing, and one that answers
/// sends the answer once and waits.
pub proof fn steps_send_what_they_answer<V>(frame: FrameView, value: V, error: ErrorView)
    ensures
        StepView::<V>::waiting().send.len() == 0,
        StepView::<V>::waiting().outcome is Waiting,
        StepView::done(value).send.len() == 0,
        StepView::done(value).outcome == OutcomeView::Done(value),
        StepView::<V>::failed(error).send.len() == 0,
        StepView::<V>::failed(error).outcome == OutcomeView::<V>::Failed(error),
        StepView::<V>::answering(frame).send == seq![frame],
        StepView::<V>::answering(frame).outcome is Waiting,
{
}

} // verus!

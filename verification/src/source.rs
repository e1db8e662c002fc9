//! Ingress: where events come from, and how they are acknowledged.
//!
//! The bus acknowledges an envelope only after the event's final ledger row
//! (`Settled`, or `Failed` plus its dead-letter row) has been written. An
//! envelope dropped before that, for example by a crash, is never
//! acknowledged, so the source may redeliver it: the delivery guarantee is
//! at least once.

use crate::event;
use crate::event::Event;
use vstd::prelude::*;

verus! {

/// Why an acknowledgement could not be delivered to the source.
#[derive(Debug, PartialEq, Eq)]
pub enum AckError {
    /// The source could not be reached.
    Unavailable {
        /// Detail from the source.
        reason: String,
    },
    /// The source no longer recognises this delivery, for example after a
    /// rebalance or a timeout; it may already have redelivered the event.
    Rejected {
        /// Detail from the source.
        reason: String,
    },
}

/// What an [`AckError`] stands for.
#[verifier::ext_equal]
pub enum AckErrorView {
    /// The source could not be reached.
    Unavailable { reason: Seq<char> },
    /// The source no longer recognises this delivery.
    Rejected { reason: Seq<char> },
}

impl View for AckError {
    type V = AckErrorView;

    open spec fn view(&self) -> AckErrorView {
        match *self {
            AckError::Unavailable { reason } => AckErrorView::Unavailable { reason: reason@ },
            AckError::Rejected { reason } => AckErrorView::Rejected { reason: reason@ },
        }
    }
}

/// An acknowledgement error in words.
pub open spec fn ack_error_text(error: AckErrorView) -> Seq<char> {
    match error {
        AckErrorView::Unavailable { reason } => "source unavailable for ack: "@ + reason,
        AckErrorView::Rejected { reason } => "ack rejected: "@ + reason,
    }
}

impl AckError {
    /// What went wrong, in words.
    pub fn message(&self) -> (text: String)
        ensures
            text@ == ack_error_text(self@),
    {
        match self {
            AckError::Unavailable { reason } => {
                let mut text = "source unavailable for ack: ".to_owned();
                text.append(reason.as_str());
                text
            },
            AckError::Rejected { reason } => {
                let mut text = "ack rejected: ".to_owned();
                text.append(reason.as_str());
                text
            },
        }
    }
}

impl Clone for AckError {
    fn clone(&self) -> (copy: AckError)
        ensures
            copy == *self,
    {
        match self {
            AckError::Unavailable { reason } => AckError::Unavailable { reason: reason.clone() },
            AckError::Rejected { reason } => AckError::Rejected { reason: reason.clone() },
        }
    }
}

/// Why a source could not produce its next envelope.
#[derive(Debug, PartialEq, Eq)]
pub enum SourceError {
    /// The source could not be reached. Reconnecting is the source's job;
    /// surfacing this stops the run.
    Unavailable {
        /// Detail from the source.
        reason: String,
    },
    /// The source produced something that is not an event.
    Malformed {
        /// What was wrong.
        reason: String,
    },
}

/// What a [`SourceError`] stands for.
#[verifier::ext_equal]
pub enum SourceErrorView {
    /// The source could not be reached.
    Unavailable { reason: Seq<char> },
    /// The source produced something that is not an event.
    Malformed { reason: Seq<char> },
}

impl View for SourceError {
    type V = SourceErrorView;

    open spec fn view(&self) -> SourceErrorView {
        match *self {
            SourceError::Unavailable { reason } => SourceErrorView::Unavailable { reason: reason@ },
            SourceError::Malformed { reason } => SourceErrorView::Malformed { reason: reason@ },
        }
    }
}

/// A source error in words.
pub open spec fn source_error_text(error: SourceErrorView) -> Seq<char> {
    match error {
        SourceErrorView::Unavailable { reason } => "source unavailable: "@ + reason,
        SourceErrorView::Malformed { reason } => "source delivered a malformed event: "@ + reason,
    }
}

impl SourceError {
    /// What went wrong, in words.
    pub fn message(&self) -> (text: String)
        ensures
            text@ == source_error_text(self@),
    {
        match self {
            SourceError::Unavailable { reason } => {
                let mut text = "source unavailable: ".to_owned();
                text.append(reason.as_str());
                text
            },
            SourceError::Malformed { reason } => {
                let mut text = "source delivered a malformed event: ".to_owned();
                text.append(reason.as_str());
                text
            },
        }
    }
}

impl Clone for SourceError {
    fn clone(&self) -> (copy: SourceError)
        ensures
            copy == *self,
    {
        match self {
            SourceError::Unavailable { reason } => SourceError::Unavailable {
                reason: reason.clone(),
            },
            SourceError::Malformed { reason } => SourceError::Malformed { reason: reason.clone() },
        }
    }
}

/// The acknowledgement for sources that need none.
#[derive(Debug, Clone, Copy, PartialEq, Eq, Structural)]
pub struct NoAck;

impl Default for NoAck {
    fn default() -> (ack: NoAck)
        ensures
            ack == NoAck,
    {
        NoAck
    }
}

impl NoAck {
    /// Acknowledging nothing always succeeds.
    pub fn ack(self) -> (result: Result<(), AckError>)
        ensures
            result == Ok::<(), AckError>(()),
    {
        Ok(())
    }
}

/// An event with the handle that acknowledges it.
#[derive(Debug)]
pub struct Envelope<A> {
    event: Event,
    ack: A,
}

impl<A> Envelope<A> {
    /// The event, by its view.
    pub closed spec fn event_view(&self) -> event::EventView {
        self.event@
    }

    /// The acknowledgement handle.
    pub closed spec fn ack_handle(&self) -> A {
        self.ack
    }

    /// Pairs an event with its acknowledgement.
    pub fn new(event: Event, ack: A) -> (envelope: Envelope<A>)
        ensures
            envelope.event_view() == event@,
            envelope.ack_handle() == ack,
    {
        Envelope { event, ack }
    }

    /// The event.
    pub fn event(&self) -> (event: &Event)
        ensures
            event@ == self.event_view(),
    {
        &self.event
    }

    /// Splits the envelope. The caller now owns the obligation to ack.
    pub fn into_parts(self) -> (parts: (Event, A))
        ensures
            parts.0@ == self.event_view(),
            parts.1 == self.ack_handle(),
    {
        (self.event, self.ack)
    }
}

impl Envelope<NoAck> {
    /// An event that needs no acknowledgement.
    pub fn unacked(event: Event) -> (envelope: Envelope<NoAck>)
        ensures
            envelope.event_view() == event@,
            envelope.ack_handle() == NoAck,
    {
        Envelope { event, ack: NoAck }
    }
}

/// Law: an error of a source says in words what it is and why.
pub proof fn law_source_errors_end_with_their_reason(reason: Seq<char>)
    ensures
        ack_error_text(AckErrorView::Unavailable { reason }) == "source unavailable for ack: "@
            + reason,
        ack_error_text(AckErrorView::Rejected { reason }) == "ack rejected: "@ + reason,
        source_error_text(SourceErrorView::Unavailable { reason }) == "source unavailable: "@
            + reason,
        source_error_text(SourceErrorView::Malformed { reason })
            == "source delivered a malformed event: "@ + reason,
{
}

} // verus!

//! Deliveries and dead letters.

use crate::event;
use crate::event::Event;
use crate::ledger;
use crate::ledger::JudgeFailure;
use crate::lifecycle::{share, Attempt};
use crate::routing;
use crate::routing::Verdict;
use std::sync::Arc;
use vstd::prelude::*;

verus! {

/// What a [`Delivery`] stands for.
#[verifier::ext_equal]
pub struct DeliveryView {
    /// The delivered event.
    pub event: event::EventView,
    /// Why it was delivered here.
    pub verdict: routing::VerdictView,
}

/// An event handed to one subscription, with the verdict that sent it there.
///
/// The event is shared: one published event fans out to every subscriber that
/// matched it.
#[derive(Debug, PartialEq, Eq)]
pub struct Delivery {
    event: Arc<Event>,
    verdict: Verdict,
}

impl View for Delivery {
    type V = DeliveryView;

    closed spec fn view(&self) -> DeliveryView {
        DeliveryView { event: self.event@, verdict: self.verdict@ }
    }
}

impl Delivery {
    /// Pairs an event with the verdict that sends it.
    pub fn new(event: Arc<Event>, verdict: Verdict) -> (delivery: Delivery)
        ensures
            delivery@ == (DeliveryView { event: event@, verdict: verdict@ }),
    {
        Delivery { event, verdict }
    }

    /// The delivered event.
    pub fn event(&self) -> (event: &Event)
        ensures
            event@ == self@.event,
    {
        &self.event
    }

    /// Why it was delivered here.
    pub fn verdict(&self) -> (verdict: &Verdict)
        ensures
            verdict@ == self@.verdict,
    {
        &self.verdict
    }

    /// Splits the delivery into its parts.
    pub fn into_parts(self) -> (parts: (Arc<Event>, Verdict))
        ensures
            parts.0@ == self@.event,
            parts.1@ == self@.verdict,
    {
        (self.event, self.verdict)
    }

    /// The delivered event, for handing on.
    pub fn into_event(self) -> (event: Event)
        ensures
            event@ == self@.event,
    {
        let shared: &Event = &self.event;
        shared.clone()
    }
}

impl Clone for Delivery {
    fn clone(&self) -> (copy: Delivery)
        ensures
            copy == *self,
    {
        Delivery { event: share(&self.event), verdict: self.verdict.clone() }
    }
}

/// What a [`DeadLetter`] stands for.
#[verifier::ext_equal]
pub struct DeadLetterView {
    /// The event that failed.
    pub event: event::EventView,
    /// Judge attempts consumed before giving up.
    pub attempts: u32,
    /// The final cause.
    pub cause: ledger::JudgeFailureView,
}

/// An event the bus gave up on, with the reason.
#[derive(Debug, PartialEq, Eq)]
pub struct DeadLetter {
    event: Arc<Event>,
    attempts: Attempt,
    cause: JudgeFailure,
}

impl View for DeadLetter {
    type V = DeadLetterView;

    closed spec fn view(&self) -> DeadLetterView {
        DeadLetterView { event: self.event@, attempts: self.attempts@, cause: self.cause@ }
    }
}

impl DeadLetter {
    /// Pairs an event with what the bus gave up over.
    pub fn new(event: Arc<Event>, attempts: Attempt, cause: JudgeFailure) -> (letter: DeadLetter)
        ensures
            letter@ == (DeadLetterView { event: event@, attempts: attempts@, cause: cause@ }),
    {
        DeadLetter { event, attempts, cause }
    }

    /// The event that failed.
    pub fn event(&self) -> (event: &Event)
        ensures
            event@ == self@.event,
    {
        &self.event
    }

    /// Judge attempts consumed before giving up.
    pub fn attempts(&self) -> (attempts: Attempt)
        ensures
            attempts@ == self@.attempts,
    {
        self.attempts
    }

    /// The final cause.
    pub fn cause(&self) -> (cause: &JudgeFailure)
        ensures
            cause@ == self@.cause,
    {
        &self.cause
    }

    /// Splits the dead letter into its parts, for replay.
    pub fn into_parts(self) -> (parts: (Arc<Event>, Attempt, JudgeFailure))
        ensures
            parts.0@ == self@.event,
            parts.1@ == self@.attempts,
            parts.2@ == self@.cause,
    {
        (self.event, self.attempts, self.cause)
    }
}

impl Clone for DeadLetter {
    fn clone(&self) -> (copy: DeadLetter)
        ensures
            copy == *self,
    {
        DeadLetter {
            event: share(&self.event),
            attempts: self.attempts,
            cause: self.cause.clone(),
        }
    }
}

} // verus!

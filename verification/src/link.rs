//! Chaining one bus into another, in process, with acknowledgements that
//! travel back up the chain.
//!
//! An upstream publish completes only when the downstream has acknowledged
//! the event, which happens after the downstream's final ledger row. The
//! upstream therefore settles and acks its own source only once the whole
//! chain has handled the event: at-least-once holds end to end.
//!
//! If the downstream drops the event without acknowledging, the upstream
//! sees [`SinkError::Unavailable`]; if the downstream has gone away entirely,
//! [`SinkError::Closed`]. Nothing is silent.
//!
//! A link holds a bounded number of unacknowledged events; [`LinkSlots`] counts
//! them, and an upstream publish waits for a free place.

use crate::delivery;
use crate::dispatch;
use crate::ledger;
use crate::ledger::Outcome;
use crate::sink;
use crate::sink::SinkError;
use crate::source;
use crate::source::AckError;
use vstd::prelude::*;

verus! {

/// What came of handing an event across a link.
pub enum Handover {
    /// The downstream end is gone: the event was not taken.
    NotTaken,
    /// The downstream took the event and dropped it without acknowledging.
    Dropped,
    /// The downstream acknowledged the event, or failed to.
    Acknowledged(Result<(), AckError>),
}

/// What a [`Handover`] stands for.
#[verifier::ext_equal]
pub enum HandoverView {
    /// The event was not taken.
    NotTaken,
    /// The event was dropped without an acknowledgement.
    Dropped,
    /// The event was acknowledged, or that failed.
    Acknowledged(Result<(), source::AckErrorView>),
}

impl View for Handover {
    type V = HandoverView;

    open spec fn view(&self) -> HandoverView {
        match *self {
            Handover::NotTaken => HandoverView::NotTaken,
            Handover::Dropped => HandoverView::Dropped,
            Handover::Acknowledged(result) => HandoverView::Acknowledged(ledger::ack_view(result)),
        }
    }
}

/// What the upstream publish reports.
pub open spec fn publish_reply(handover: HandoverView) -> Result<(), sink::SinkErrorView> {
    match handover {
        HandoverView::NotTaken => Err(sink::SinkErrorView::Closed),
        HandoverView::Dropped => Err(
            sink::SinkErrorView::Unavailable {
                reason: "downstream dropped the event without acknowledging"@,
            },
        ),
        HandoverView::Acknowledged(Ok(())) => Ok(()),
        HandoverView::Acknowledged(Err(error)) => Err(
            sink::SinkErrorView::Unavailable {
                reason: "downstream ack failed: "@ + source::ack_error_text(error),
            },
        ),
    }
}

/// What the upstream publish reports.
pub fn published(handover: Handover) -> (reply: Result<(), SinkError>)
    ensures
        dispatch::sent_view(reply) == publish_reply(handover@),
{
    match handover {
        Handover::NotTaken => Err(SinkError::Closed),
        Handover::Dropped => Err(
            SinkError::Unavailable {
                reason: "downstream dropped the event without acknowledging".to_owned(),
            },
        ),
        Handover::Acknowledged(Ok(())) => Ok(()),
        Handover::Acknowledged(Err(error)) => {
            let mut reason = "downstream ack failed: ".to_owned();
            reason.append(error.message().as_str());
            Err(SinkError::Unavailable { reason })
        },
    }
}

/// What the downstream acknowledgement reports: it is rejected where the
/// upstream no longer waits for it.
pub fn acknowledged(still_waiting: bool) -> (result: Result<(), AckError>)
    ensures
        ledger::ack_view(result) == if still_waiting {
            Ok::<(), source::AckErrorView>(())
        } else {
            Err(
                source::AckErrorView::Rejected {
                    reason: "upstream is no longer waiting for this event"@,
                },
            )
        },
{
    if still_waiting {
        Ok(())
    } else {
        Err(
            AckError::Rejected {
                reason: "upstream is no longer waiting for this event".to_owned(),
            },
        )
    }
}

/// What a [`LinkSlots`] stands for.
#[verifier::ext_equal]
pub struct LinkSlotsView {
    /// How many events are in the link or with the downstream.
    pub held: nat,
    /// How many may be.
    pub capacity: nat,
}

/// The places of a link: one for each event that was handed over and is
/// neither acknowledged nor dropped.
#[derive(Debug)]
pub struct LinkSlots {
    held: usize,
    capacity: usize,
}

impl View for LinkSlots {
    type V = LinkSlotsView;

    closed spec fn view(&self) -> LinkSlotsView {
        LinkSlotsView { held: self.held as nat, capacity: self.capacity as nat }
    }
}

/// The places of a link that holds nothing.
pub open spec fn fresh_slots(capacity: nat) -> LinkSlotsView {
    LinkSlotsView { held: 0, capacity }
}

/// The places after an event was offered: it is taken where there is room.
pub open spec fn after_offer(slots: LinkSlotsView) -> LinkSlotsView {
    if slots.held < slots.capacity {
        LinkSlotsView { held: slots.held + 1, ..slots }
    } else {
        slots
    }
}

/// The places after an event that was taken is acknowledged or dropped.
pub open spec fn after_settling(slots: LinkSlotsView) -> LinkSlotsView {
    if slots.held > 0 {
        LinkSlotsView { held: (slots.held - 1) as nat, ..slots }
    } else {
        slots
    }
}

impl LinkSlots {
    #[verifier::type_invariant]
    spec fn bounded(self) -> bool {
        self.held <= self.capacity
    }

    /// The places of a link that holds at most `capacity` unacknowledged events.
    pub fn new(capacity: usize) -> (slots: LinkSlots)
        ensures
            slots@ == fresh_slots(capacity as nat),
    {
        LinkSlots { held: 0, capacity }
    }

    /// Takes a place for an event, where one is free.
    pub fn take(&mut self) -> (taken: bool)
        ensures
            taken <==> old(self)@.held < old(self)@.capacity,
            final(self)@ == after_offer(old(self)@),
            final(self)@.held <= final(self)@.capacity,
    {
        proof {
            use_type_invariant(&*self);
        }
        if self.held < self.capacity {
            self.held = self.held + 1;
            true
        } else {
            false
        }
    }

    /// An event was acknowledged or dropped: its place is free again.
    pub fn give_back(&mut self)
        ensures
            final(self)@ == after_settling(old(self)@),
            final(self)@.held <= final(self)@.capacity,
    {
        proof {
            use_type_invariant(&*self);
        }
        if self.held > 0 {
            self.held = self.held - 1;
        }
    }

    /// How many events are in the link or with the downstream.
    pub fn held(&self) -> (held: usize)
        ensures
            held == self@.held,
            held <= self@.capacity,
    {
        proof {
            use_type_invariant(self);
        }
        self.held
    }
}

/// One thing that happens at a link.
pub enum LinkMove {
    /// The upstream offers an event.
    Offers,
    /// An event that was taken is acknowledged or dropped.
    Settles,
}

/// A link's places, with what has gone through them.
#[verifier::ext_equal]
pub struct LinkRun {
    /// The places.
    pub slots: LinkSlotsView,
    /// How many events were taken.
    pub taken: nat,
    /// How many of them were acknowledged or dropped.
    pub settled: nat,
}

/// A link after `moves`.
pub open spec fn after_link_moves(capacity: nat, moves: Seq<LinkMove>) -> LinkRun
    decreases moves.len(),
{
    if moves.len() == 0 {
        LinkRun { slots: fresh_slots(capacity), taken: 0, settled: 0 }
    } else {
        let run = after_link_moves(capacity, moves.drop_last());
        match moves.last() {
            LinkMove::Offers => LinkRun {
                slots: after_offer(run.slots),
                taken: if run.slots.held < run.slots.capacity {
                    run.taken + 1
                } else {
                    run.taken
                },
                ..run
            },
            LinkMove::Settles => LinkRun {
                slots: after_settling(run.slots),
                settled: if run.slots.held > 0 {
                    run.settled + 1
                } else {
                    run.settled
                },
                ..run
            },
        }
    }
}

/// Law: a link holds at most `capacity` unacknowledged events. Whatever is
/// offered, acknowledged and dropped, the events that were taken and are
/// neither acknowledged nor dropped are those that the link counts, and they
/// are never more than its capacity.
pub proof fn law_links_hold_at_most_their_capacity(capacity: nat, moves: Seq<LinkMove>)
    ensures
        ({
            let run = after_link_moves(capacity, moves);
            &&& run.slots.held == run.taken - run.settled
            &&& run.slots.held <= capacity
            &&& run.slots.capacity == capacity
        }),
    decreases moves.len(),
{
    if moves.len() > 0 {
        law_links_hold_at_most_their_capacity(capacity, moves.drop_last());
    }
}

/// Law (at least once, end to end): the upstream records a delivery across a
/// link as delivered exactly where the downstream acknowledged it; a downstream
/// that went away is recorded as unsubscribed, anything else as a failed sink.
pub proof fn law_delivered_exactly_where_acknowledged(
    delivery: delivery::DeliveryView,
    handover: HandoverView,
)
    ensures
        ({
            let offer = dispatch::OfferView::Send {
                role: crate::blueprint::Role::Deliver,
                delivery,
            };
            dispatch::offer_outcome(offer, publish_reply(handover)) == match handover {
                HandoverView::Acknowledged(Ok(())) => Outcome::Delivered,
                HandoverView::NotTaken => Outcome::Unsubscribed,
                _ => Outcome::SinkFailed,
            }
        }),
{
}

/// Law: an upstream publish succeeds exactly where the downstream acknowledged
/// the event; else it says what happened to it, with the downstream's own words
/// where there are any.
pub proof fn law_a_publish_says_what_became_of_the_event(error: source::AckErrorView)
    ensures
        publish_reply(HandoverView::Acknowledged(Ok(()))) is Ok,
        publish_reply(HandoverView::NotTaken) == Err::<(), _>(sink::SinkErrorView::Closed),
        publish_reply(HandoverView::Dropped) == Err::<(), _>(
            sink::SinkErrorView::Unavailable {
                reason: "downstream dropped the event without acknowledging"@,
            },
        ),
        publish_reply(HandoverView::Acknowledged(Err(error))) == Err::<(), _>(
            sink::SinkErrorView::Unavailable {
                reason: "downstream ack failed: "@ + source::ack_error_text(error),
            },
        ),
{
}

/// Law: a link takes an event exactly while it has room, and each event that is
/// acknowledged or dropped makes room for one.
pub proof fn law_a_link_takes_events_while_it_has_room(slots: LinkSlotsView)
    ensures
        slots.held < slots.capacity ==> after_offer(slots).held == slots.held + 1,
        slots.held >= slots.capacity ==> after_offer(slots) == slots,
        slots.held > 0 ==> after_settling(slots).held == slots.held - 1,
        slots.held == 0 ==> after_settling(slots) == slots,
        after_offer(slots).capacity == slots.capacity,
        after_settling(slots).capacity == slots.capacity,
        slots.held < slots.capacity ==> after_settling(after_offer(slots)) == slots,
{
}

} // verus!

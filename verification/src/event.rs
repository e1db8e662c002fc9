//! Events published on the bus.

use crate::ordered;
use crate::ordered::{replicas, Replica};
use vstd::prelude::*;

verus! {

/// Identity of an event.
///
/// Invariant: non-empty. Its view is the identifier text.
#[derive(Debug, PartialEq, Eq, PartialOrd, Ord, Hash)]
pub struct EventId {
    text: String,
}

/// An identifier was empty.
#[derive(Debug, Clone, Copy, PartialEq, Eq, Structural)]
pub struct EmptyId;

impl EmptyId {
    /// What went wrong, in words.
    pub fn message(&self) -> (text: String)
        ensures
            text@ == "identifier must not be empty"@,
    {
        "identifier must not be empty".to_owned()
    }
}

impl EventId {
    #[verifier::type_invariant]
    spec fn non_empty(self) -> bool {
        self.text@.len() > 0
    }
}

impl View for EventId {
    type V = Seq<char>;

    closed spec fn view(&self) -> Seq<char> {
        self.text@
    }
}

impl EventId {
    /// Validates that `id` is non-empty.
    pub fn new(id: &str) -> (checked: Result<EventId, EmptyId>)
        ensures
            checked is Ok <==> id@.len() > 0,
            checked matches Ok(event_id) ==> event_id@ == id@,
    {
        if id.is_empty() {
            Err(EmptyId)
        } else {
            Ok(EventId { text: id.to_owned() })
        }
    }

    /// The identifier text.
    pub fn as_str(&self) -> (text: &str)
        ensures
            text@ == self@,
            text@.len() > 0,
    {
        proof {
            use_type_invariant(self);
        }
        self.text.as_str()
    }
}

impl Clone for EventId {
    fn clone(&self) -> (copy: EventId)
        ensures
            copy == *self,
    {
        proof {
            use_type_invariant(self);
        }
        EventId { text: self.text.clone() }
    }
}

impl Replica for EventId {
    fn replica(&self) -> (copy: EventId) {
        self.clone()
    }
}

/// The content a judge evaluates. Jev calls this the `state`.
///
/// The bus treats the payload as opaque text; producers serialise structured
/// data before publishing. Its view is that text.
#[derive(Debug, PartialEq, Eq)]
pub struct Payload {
    text: String,
}

impl View for Payload {
    type V = Seq<char>;

    closed spec fn view(&self) -> Seq<char> {
        self.text@
    }
}

impl Payload {
    /// Wraps arbitrary text. Empty payloads are allowed; the judge decides
    /// what to make of them.
    pub fn new(text: &str) -> (payload: Payload)
        ensures
            payload@ == text@,
    {
        Payload { text: text.to_owned() }
    }

    /// The payload text.
    pub fn as_str(&self) -> (text: &str)
        ensures
            text@ == self@,
    {
        self.text.as_str()
    }
}

impl Clone for Payload {
    fn clone(&self) -> (copy: Payload)
        ensures
            copy == *self,
    {
        Payload { text: self.text.clone() }
    }
}

/// What an [`Event`] stands for.
#[verifier::ext_equal]
pub struct EventView {
    /// The identity.
    pub id: Seq<char>,
    /// The text to judge.
    pub payload: Seq<char>,
    /// Identities of the events that it was merged from.
    pub parts: Seq<Seq<char>>,
}

/// An event: an identity, the payload to judge, and lineage.
///
/// `parts` is empty for an event that arrived from outside and lists the
/// direct constituents of an event produced by merging. Nested lineage is
/// recovered from the ledger's `Composed` rows of those parts.
#[derive(Debug, PartialEq, Eq)]
pub struct Event {
    id: EventId,
    payload: Payload,
    parts: Vec<EventId>,
}

impl View for Event {
    type V = EventView;

    closed spec fn view(&self) -> EventView {
        EventView { id: self.id@, payload: self.payload@, parts: ordered::views(self.parts@) }
    }
}

/// The identities of `events`, in order.
pub open spec fn identities(events: Seq<Event>) -> Seq<Seq<char>> {
    Seq::new(events.len(), |i: int| events[i]@.id)
}

impl Event {
    /// Builds an event with no lineage.
    pub fn new(id: EventId, payload: Payload) -> (event: Event)
        ensures
            event@ == (EventView { id: id@, payload: payload@, parts: Seq::empty() }),
    {
        let event = Event { id, payload, parts: Vec::new() };
        assert(event@.parts =~= Seq::<Seq<char>>::empty());
        event
    }

    /// Builds an event that stands for `parts`, whose identities it lists in
    /// the given order.
    pub fn merged(id: EventId, payload: Payload, parts: &[Event]) -> (event: Event)
        ensures
            event@ == (EventView { id: id@, payload: payload@, parts: identities(parts@) }),
    {
        let mut ids: Vec<EventId> = Vec::new();
        let mut i: usize = 0;
        while i < parts.len()
            invariant
                i <= parts@.len(),
                ids@.len() == i,
                forall|j: int| 0 <= j < i ==> (#[trigger] ids@[j])@ == parts@[j]@.id,
            decreases parts@.len() - i,
        {
            ids.push(parts[i].id.clone());
            i = i + 1;
        }
        assert(ordered::views(ids@) =~= identities(parts@));
        Event { id, payload, parts: ids }
    }

    /// Builds an event with the given lineage.
    pub fn with_parts(id: EventId, payload: Payload, parts: Vec<EventId>) -> (event: Event)
        ensures
            event@ == (EventView { id: id@, payload: payload@, parts: ordered::views(parts@) }),
    {
        Event { id, payload, parts }
    }

    /// Ids of the events this one was merged from. Empty for an external event.
    pub fn parts(&self) -> (parts: &[EventId])
        ensures
            ordered::views(parts@) == self@.parts,
    {
        self.parts.as_slice()
    }

    /// Semantic predicate: this event was produced by merging.
    pub fn is_composite(&self) -> (composite: bool)
        ensures
            composite <==> self@.parts.len() > 0,
    {
        self.parts.len() > 0
    }

    /// The event identity.
    pub fn id(&self) -> (id: &EventId)
        ensures
            id@ == self@.id,
    {
        &self.id
    }

    /// The payload the judge evaluates.
    pub fn payload(&self) -> (payload: &Payload)
        ensures
            payload@ == self@.payload,
    {
        &self.payload
    }
}

impl Clone for Event {
    fn clone(&self) -> (copy: Event)
        ensures
            copy@ == self@,
    {
        Event {
            id: self.id.clone(),
            payload: self.payload.clone(),
            parts: replicas(self.parts.as_slice()),
        }
    }
}

impl Replica for Event {
    fn replica(&self) -> (copy: Event) {
        self.clone()
    }
}

/// Law: the identities of events are listed one for one, in order.
pub proof fn law_identities_come_in_order(events: Seq<Event>, i: int)
    requires
        0 <= i < events.len(),
    ensures
        identities(events).len() == events.len(),
        identities(events)[i] == events[i]@.id,
{
}

} // verus!

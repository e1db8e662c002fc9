//! A run of the bus: what it asks, what it takes from its source, and where
//! each event starts.

use crate::blueprint;
use crate::bus;
use crate::bus::{Bus, RunError};
use crate::question;
use crate::question::QuestionSet;
use crate::routing;
use crate::routing::plan;
use crate::source::{Envelope, SourceError};
use crate::walk;
use crate::walk::Walk;
use vstd::prelude::*;

verus! {

/// The questions of a bus, fixed for a run's lifetime.
pub open spec fn questions_of(bus: blueprint::BlueprintView) -> Map<
    Seq<char>,
    question::QuestionView,
> {
    routing::planned(bus.config.policy, bus::subscriptions_of(bus.routes))
}

/// A bus whose questions are fixed.
///
/// The run consumes the bus so that no subscription can be added mid-run. Its
/// view is the bus's blueprint.
#[derive(Debug)]
pub struct Run {
    bus: Bus,
    questions: QuestionSet,
}

impl Run {
    #[verifier::type_invariant]
    spec fn questions_are_planned(self) -> bool {
        self.questions@ == questions_of(self.bus@)
    }
}

impl View for Run {
    type V = blueprint::BlueprintView;

    closed spec fn view(&self) -> blueprint::BlueprintView {
        self.bus@
    }
}

impl Run {
    /// Fixes the questions. With nothing to ask there is no run: the bus
    /// returns at once without reading the input.
    pub fn start(bus: Bus) -> (run: Option<Run>)
        ensures
            run is None <==> questions_of(bus@) == Map::<Seq<char>, question::QuestionView>::empty(),
            run matches Some(run) ==> run@ == bus@,
    {
        let questions = plan(bus.config().policy, bus.subscriptions());
        if questions.is_empty() {
            None
        } else {
            Some(Run { bus, questions })
        }
    }

    /// The bus.
    pub fn bus(&self) -> (bus: &Bus)
        ensures
            bus@ == self@,
    {
        &self.bus
    }

    /// The questions asked about every event.
    pub fn questions(&self) -> (questions: &QuestionSet)
        ensures
            questions@ == questions_of(self@),
    {
        proof {
            use_type_invariant(self);
        }
        &self.questions
    }
}

/// Law: there is nothing to ask exactly where there are no subscriptions.
pub proof fn law_no_questions_without_subscriptions(bus: blueprint::BlueprintView)
    ensures
        questions_of(bus) == Map::<Seq<char>, question::QuestionView>::empty()
            <==> bus.routes.len() == 0,
{
    let subscriptions = bus::subscriptions_of(bus.routes);
    let named = routing::named_questions(subscriptions);
    if bus.routes.len() == 0 {
        assert(named =~= Seq::empty());
    } else {
        crate::ordered::lemma_collected(named);
        assert(crate::ordered::collected(named).contains_key(named[0].0));
        assert(questions_of(bus).contains_key(
            match bus.config.policy {
                routing::Policy::FanOut => named[0].0,
                routing::Policy::Exclusive => routing::EXCLUSIVE_QUESTION@,
            },
        ));
    }
}

/// Starts an event on its way, or stops for a source that failed.
pub fn accept<A>(envelope: Result<Envelope<A>, SourceError>) -> (started: Result<
    (Walk, A),
    RunError,
>)
    ensures
        match (envelope, started) {
            (Ok(envelope), Ok((walk, ack))) => walk@ == walk::walk_start(envelope.event_view())
                && ack == envelope.ack_handle(),
            (Err(error), Err(stopped)) => stopped == RunError::Source(error),
            _ => false,
        },
{
    match envelope {
        Ok(envelope) => {
            let (event, ack) = envelope.into_parts();
            Ok((Walk::start(event), ack))
        },
        Err(error) => Err(RunError::Source(error)),
    }
}

/// Whether a source is still pulled from.
#[derive(Debug, Clone, Copy, PartialEq, Eq, Structural)]
pub struct Pull {
    /// The source failed; nothing more is pulled from it.
    pub done: bool,
}

impl Pull {
    /// A source that has not been pulled from yet.
    pub fn new() -> (pull: Pull)
        ensures
            !pull.done,
    {
        Pull { done: false }
    }

    /// What the run takes from the source's reply: an envelope and more to
    /// come, a failure and nothing more after it, or the end.
    pub fn pulled<A>(self, reply: Result<Option<Envelope<A>>, SourceError>) -> (item: Option<
        (Result<Envelope<A>, SourceError>, Pull),
    >)
        ensures
            item == match reply {
                Ok(Some(envelope)) => Some(
                    (Ok::<_, SourceError>(envelope), (Pull { done: false })),
                ),
                Ok(None) => None,
                Err(error) => Some((Err::<Envelope<A>, _>(error), (Pull { done: true }))),
            },
    {
        match reply {
            Ok(Some(envelope)) => Some((Ok(envelope), Pull { done: false })),
            Ok(None) => None,
            Err(error) => Some((Err(error), Pull { done: true })),
        }
    }
}

/// Law: a run asks what its policy plans for the subscriptions of its routes,
/// in the order of registration.
pub proof fn law_a_run_asks_about_its_routes(bus: blueprint::BlueprintView)
    ensures
        questions_of(bus) == routing::planned(
            bus.config.policy,
            bus.routes.map_values(|route: blueprint::RouteView| route.subscription),
        ),
{
    assert(bus::subscriptions_of(bus.routes) =~= bus.routes.map_values(
        |route: blueprint::RouteView| route.subscription,
    ));
}

} // verus!

//! The bus as data: its tunables, its subscriptions and where they may fail.

use crate::blueprint;
use crate::blueprint::{Blueprint, RouteSpec};
use crate::breaker::BreakerPolicy;
use crate::ledger;
use crate::ledger::LedgerError;
use crate::lifecycle;
use crate::lifecycle::RetryPolicy;
use crate::num::NonZeroUsize;
use crate::ordered;
use crate::routing;
use crate::routing::Policy;
use crate::source;
use crate::source::SourceError;
use crate::subscription;
use crate::subscription::{Subscription, SubscriptionId};
use crate::time;
use vstd::prelude::*;

verus! {

/// Tunables for a [`Bus`].
#[derive(Debug, Clone, Copy, PartialEq, Eq, Structural)]
pub struct BusConfig {
    /// How subscriptions compete for an event.
    pub policy: Policy,
    /// How many judge requests may be in flight at once. Output order is the
    /// input order regardless of this value.
    pub concurrency: NonZeroUsize,
    /// Deliveries that may wait unread per in-process subscriber before the
    /// bus blocks.
    pub channel_capacity: usize,
    /// Retry, backoff and timeout for judge calls.
    pub retry: RetryPolicy,
    /// When consecutive failures pause all judge calls.
    pub breaker: BreakerPolicy,
}

impl Default for BusConfig {
    fn default() -> (config: BusConfig)
        ensures
            config.policy == Policy::FanOut,
            config.concurrency@ == 8,
            config.channel_capacity == 64,
            config.retry.attempts matches lifecycle::Attempts::Bounded(max) && max@ == 5,
            config.retry.base_delay@ == 200 * time::NANOS_PER_MILLI,
            config.retry.max_delay@ == 10 * time::NANOS_PER_SEC,
            config.retry.multiplier == 2,
            config.retry.timeout@ == 5 * time::NANOS_PER_SEC,
            config.breaker.failure_threshold@ == 5,
            config.breaker.cooldown@ == 1 * time::NANOS_PER_SEC,
            config.breaker.max_cooldown@ == 30 * time::NANOS_PER_SEC,
    {
        BusConfig {
            policy: Policy::FanOut,
            concurrency: NonZeroUsize::one().saturating_add(7),
            channel_capacity: 64,
            retry: RetryPolicy::default(),
            breaker: BreakerPolicy::default(),
        }
    }
}

/// A subscription could not be registered.
#[derive(Debug, PartialEq, Eq)]
pub enum SubscribeError {
    /// A subscription with this id is already registered.
    Duplicate {
        /// The clashing id.
        id: SubscriptionId,
    },
    /// A dead-letter sink was already registered.
    DeadLettersTaken,
}

/// What a [`SubscribeError`] stands for.
#[verifier::ext_equal]
pub enum SubscribeErrorView {
    /// A subscription with this id is already registered.
    Duplicate { id: Seq<char> },
    /// A dead-letter sink was already registered.
    DeadLettersTaken,
}

impl View for SubscribeError {
    type V = SubscribeErrorView;

    open spec fn view(&self) -> SubscribeErrorView {
        match *self {
            SubscribeError::Duplicate { id } => SubscribeErrorView::Duplicate { id: id@ },
            SubscribeError::DeadLettersTaken => SubscribeErrorView::DeadLettersTaken,
        }
    }
}

/// A registration error in words.
pub open spec fn subscribe_error_text(error: SubscribeErrorView) -> Seq<char> {
    match error {
        SubscribeErrorView::Duplicate { id } => "subscription "@ + id + " already exists"@,
        SubscribeErrorView::DeadLettersTaken => "dead-letter sink already registered"@,
    }
}

impl SubscribeError {
    /// What went wrong, in words.
    pub fn message(&self) -> (text: String)
        ensures
            text@ == subscribe_error_text(self@),
    {
        match self {
            SubscribeError::Duplicate { id } => {
                let mut text = "subscription ".to_owned();
                text.append(id.as_str());
                text.append(" already exists");
                text
            },
            SubscribeError::DeadLettersTaken => "dead-letter sink already registered".to_owned(),
        }
    }
}

impl Clone for SubscribeError {
    fn clone(&self) -> (copy: SubscribeError)
        ensures
            copy == *self,
    {
        match self {
            SubscribeError::Duplicate { id } => SubscribeError::Duplicate { id: id.clone() },
            SubscribeError::DeadLettersTaken => SubscribeError::DeadLettersTaken,
        }
    }
}

/// The bus stopped before the input ended.
#[derive(Debug, PartialEq, Eq)]
pub enum RunError {
    /// A record could not be written.
    Ledger(LedgerError),
    /// The source failed.
    Source(SourceError),
    /// A judge call panicked while holding the breaker lock.
    BreakerPoisoned,
}

/// What a [`RunError`] stands for.
#[verifier::ext_equal]
pub enum RunErrorView {
    /// A record could not be written.
    Ledger(ledger::LedgerErrorView),
    /// The source failed.
    Source(source::SourceErrorView),
    /// A judge call panicked while holding the breaker lock.
    BreakerPoisoned,
}

impl View for RunError {
    type V = RunErrorView;

    open spec fn view(&self) -> RunErrorView {
        match *self {
            RunError::Ledger(error) => RunErrorView::Ledger(error@),
            RunError::Source(error) => RunErrorView::Source(error@),
            RunError::BreakerPoisoned => RunErrorView::BreakerPoisoned,
        }
    }
}

/// A run error in words: those of the error behind it, where there is one.
pub open spec fn run_error_text(error: RunErrorView) -> Seq<char> {
    match error {
        RunErrorView::Ledger(error) => ledger::ledger_error_text(error),
        RunErrorView::Source(error) => source::source_error_text(error),
        RunErrorView::BreakerPoisoned => "breaker lock poisoned"@,
    }
}

impl RunError {
    /// What went wrong, in words.
    pub fn message(&self) -> (text: String)
        ensures
            text@ == run_error_text(self@),
    {
        match self {
            RunError::Ledger(error) => error.message(),
            RunError::Source(error) => error.message(),
            RunError::BreakerPoisoned => "breaker lock poisoned".to_owned(),
        }
    }
}

impl Clone for RunError {
    fn clone(&self) -> (copy: RunError)
        ensures
            copy == *self,
    {
        match self {
            RunError::Ledger(error) => RunError::Ledger(error.clone()),
            RunError::Source(error) => RunError::Source(error.clone()),
            RunError::BreakerPoisoned => RunError::BreakerPoisoned,
        }
    }
}

impl From<LedgerError> for RunError {
    fn from(error: LedgerError) -> (stopped: RunError) {
        RunError::Ledger(error)
    }
}

impl vstd::std_specs::convert::FromSpecImpl<LedgerError> for RunError {
    open spec fn obeys_from_spec() -> bool {
        true
    }

    open spec fn from_spec(error: LedgerError) -> RunError {
        RunError::Ledger(error)
    }
}

impl From<SourceError> for RunError {
    fn from(error: SourceError) -> (stopped: RunError) {
        RunError::Source(error)
    }
}

impl vstd::std_specs::convert::FromSpecImpl<SourceError> for RunError {
    open spec fn obeys_from_spec() -> bool {
        true
    }

    open spec fn from_spec(error: SourceError) -> RunError {
        RunError::Source(error)
    }
}

/// The subscriptions of `routes`, in order.
pub open spec fn subscriptions_of(routes: Seq<blueprint::RouteView>) -> Seq<
    subscription::SubscriptionView,
> {
    Seq::new(routes.len(), |i: int| routes[i].subscription)
}

/// One of `routes` has the id `id`.
pub open spec fn taken(routes: Seq<blueprint::RouteView>, id: Seq<char>) -> bool {
    exists|i: int| 0 <= i < routes.len() && (#[trigger] routes[i]).subscription.id == id
}

/// The first id, in registration order, that an earlier route already has.
pub open spec fn first_repeat(routes: Seq<blueprint::RouteView>) -> Option<Seq<char>>
    decreases routes.len(),
{
    if routes.len() == 0 {
        None
    } else if let Some(id) = first_repeat(routes.drop_last()) {
        Some(id)
    } else if taken(routes.drop_last(), routes.last().subscription.id) {
        Some(routes.last().subscription.id)
    } else {
        None
    }
}

/// The bus that a blueprint describes, unless an id repeats in it.
pub open spec fn rebuilt(blueprint: blueprint::BlueprintView) -> Result<
    blueprint::BlueprintView,
    SubscribeErrorView,
> {
    match first_repeat(blueprint.routes) {
        None => Ok(blueprint),
        Some(id) => Err(SubscribeErrorView::Duplicate { id }),
    }
}

/// The subscriptions, and which of them have a review egress.
#[derive(Debug)]
struct Routes {
    subscriptions: Vec<Subscription>,
    reviewed: Vec<bool>,
}

/// The data half of a streaming event bus.
///
/// No two subscriptions share an id. Its view is the bus's blueprint.
#[derive(Debug)]
pub struct Bus {
    config: BusConfig,
    routes: Routes,
    dead_letters: bool,
}

impl Routes {
    spec fn listed(self) -> Seq<blueprint::RouteView> {
        Seq::new(
            self.subscriptions@.len(),
            |i: int|
                blueprint::RouteView {
                    subscription: self.subscriptions@[i]@,
                    review: self.reviewed@[i],
                },
        )
    }

    fn new() -> (routes: Routes)
        ensures
            routes.subscriptions@.len() == 0,
            routes.reviewed@.len() == 0,
    {
        Routes { subscriptions: Vec::new(), reviewed: Vec::new() }
    }

    fn push(&mut self, subscription: Subscription, review: bool)
        requires
            old(self).subscriptions@.len() == old(self).reviewed@.len(),
        ensures
            final(self).subscriptions@.len() == final(self).reviewed@.len(),
            final(self).listed() == old(self).listed().push(
                (blueprint::RouteView { subscription: subscription@, review }),
            ),
    {
        let ghost before = self.listed();
        let ghost pushed = blueprint::RouteView { subscription: subscription@, review };
        self.subscriptions.push(subscription);
        self.reviewed.push(review);
        assert(self.listed() =~= before.push(pushed));
    }
}

impl Bus {
    #[verifier::type_invariant]
    spec fn unique(self) -> bool {
        &&& self.routes.subscriptions@.len() == self.routes.reviewed@.len()
        &&& routing::distinct_ids(subscriptions_of(self.routes.listed()))
    }
}

impl View for Bus {
    type V = blueprint::BlueprintView;

    closed spec fn view(&self) -> blueprint::BlueprintView {
        blueprint::BlueprintView {
            config: self.config,
            routes: self.routes.listed(),
            dead_letters: self.dead_letters,
        }
    }
}

/// The bus with one more route, unless its id is taken.
pub open spec fn registered(
    bus: blueprint::BlueprintView,
    subscription: subscription::SubscriptionView,
    review: bool,
) -> Result<blueprint::BlueprintView, SubscribeErrorView> {
    if taken(bus.routes, subscription.id) {
        Err(SubscribeErrorView::Duplicate { id: subscription.id })
    } else {
        Ok(
            blueprint::BlueprintView {
                routes: bus.routes.push(blueprint::RouteView { subscription, review }),
                ..bus
            },
        )
    }
}

/// A registration did what `expected` says: on success the bus is the one it
/// gives, else the bus is unchanged and the error is the one it gives.
pub open spec fn registration(
    before: blueprint::BlueprintView,
    after: blueprint::BlueprintView,
    outcome: Result<(), SubscribeError>,
    expected: Result<blueprint::BlueprintView, SubscribeErrorView>,
) -> bool {
    match (outcome, expected) {
        (Ok(()), Ok(bus)) => after == bus,
        (Err(error), Err(reason)) => error@ == reason && after == before,
        _ => false,
    }
}

impl Bus {
    /// Creates a bus with no subscriptions.
    pub fn new(config: BusConfig) -> (bus: Bus)
        ensures
            bus@ == (blueprint::BlueprintView {
                config,
                routes: Seq::empty(),
                dead_letters: false,
            }),
    {
        let routes = Routes::new();
        assert(routes.listed() =~= Seq::<blueprint::RouteView>::empty());
        Bus { config, routes, dead_letters: false }
    }

    /// The tunables.
    pub fn config(&self) -> (config: &BusConfig)
        ensures
            *config == self@.config,
    {
        &self.config
    }

    /// Registers a subscription without a review egress.
    ///
    /// Events that fall in the review band are recorded as
    /// [`ledger::Outcome::Unreviewed`] and not delivered.
    pub fn subscribe_to(&mut self, subscription: Subscription) -> (outcome: Result<
        (),
        SubscribeError,
    >)
        ensures
            registration(
                old(self)@,
                final(self)@,
                outcome,
                registered(old(self)@, subscription@, false),
            ),
    {
        self.register(subscription, false)
    }

    /// Registers a subscription with a separate review egress.
    pub fn subscribe_with_review_to(&mut self, subscription: Subscription) -> (outcome: Result<
        (),
        SubscribeError,
    >)
        ensures
            registration(
                old(self)@,
                final(self)@,
                outcome,
                registered(old(self)@, subscription@, true),
            ),
    {
        self.register(subscription, true)
    }

    fn register(&mut self, subscription: Subscription, review: bool) -> (outcome: Result<
        (),
        SubscribeError,
    >)
        ensures
            registration(
                old(self)@,
                final(self)@,
                outcome,
                registered(old(self)@, subscription@, review),
            ),
    {
        if let Err(error) = self.check_unique(subscription.id()) {
            return Err(error);
        }
        proof {
            use_type_invariant(&*self);
        }
        let mut routes = Routes::new();
        std::mem::swap(&mut routes, &mut self.routes);
        routes.push(subscription, review);
        proof {
            law_ids_stay_unique(old(self)@, subscription@, review);
        }
        self.routes = routes;
        Ok(())
    }

    /// Gives events the bus gives up on somewhere to go. May be done once.
    ///
    /// Without a dead-letter egress, failed events are still recorded in the
    /// ledger as [`ledger::Outcome::Unhandled`].
    pub fn dead_letters_to(&mut self) -> (outcome: Result<(), SubscribeError>)
        ensures
            registration(
                old(self)@,
                final(self)@,
                outcome,
                if old(self)@.dead_letters {
                    Err(SubscribeErrorView::DeadLettersTaken)
                } else {
                    Ok(blueprint::BlueprintView { dead_letters: true, ..old(self)@ })
                },
            ),
    {
        proof {
            use_type_invariant(&*self);
        }
        if self.dead_letters {
            return Err(SubscribeError::DeadLettersTaken);
        }
        self.dead_letters = true;
        Ok(())
    }

    /// Whether failed events have somewhere to go.
    pub fn has_dead_letters(&self) -> (taken: bool)
        ensures
            taken == self@.dead_letters,
    {
        self.dead_letters
    }

    /// The registered subscriptions in registration order.
    pub fn subscriptions(&self) -> (subscriptions: &[Subscription])
        ensures
            ordered::views(subscriptions@) == subscriptions_of(self@.routes),
    {
        proof {
            assert(ordered::views(self.routes.subscriptions@) =~= subscriptions_of(
                self.routes.listed(),
            ));
        }
        self.routes.subscriptions.as_slice()
    }

    /// Whether the route at `i` has a review egress.
    pub fn has_review(&self, i: usize) -> (review: bool)
        requires
            i < self@.routes.len(),
        ensures
            review == self@.routes[i as int].review,
    {
        proof {
            use_type_invariant(self);
        }
        self.routes.reviewed[i]
    }

    fn check_unique(&self, id: &SubscriptionId) -> (outcome: Result<(), SubscribeError>)
        ensures
            match outcome {
                Ok(()) => !taken(self@.routes, id@),
                Err(error) => taken(self@.routes, id@) && error@ == (
                SubscribeErrorView::Duplicate { id: id@ }),
            },
    {
        let ghost listed = self.routes.listed();
        let mut i: usize = 0;
        while i < self.routes.subscriptions.len()
            invariant
                i <= self.routes.subscriptions@.len(),
                listed == self.routes.listed(),
                self@.routes == listed,
                forall|j: int| 0 <= j < i ==> (#[trigger] listed[j]).subscription.id != id@,
            decreases self.routes.subscriptions@.len() - i,
        {
            let other = self.routes.subscriptions[i].id().as_str().to_owned();
            if other == id.as_str().to_owned() {
                assert(listed[i as int].subscription.id == id@);
                return Err(SubscribeError::Duplicate { id: id.clone() });
            }
            i = i + 1;
        }
        Ok(())
    }

    /// Everything about the bus that is a value.
    pub fn blueprint(&self) -> (blueprint: Blueprint)
        ensures
            blueprint@ == self@,
            routing::distinct_ids(subscriptions_of(blueprint@.routes)),
    {
        proof {
            use_type_invariant(self);
        }
        let mut routes: Vec<RouteSpec> = Vec::new();
        let mut i: usize = 0;
        while i < self.routes.subscriptions.len()
            invariant
                self.routes.subscriptions@.len() == self.routes.reviewed@.len(),
                i <= self.routes.subscriptions@.len(),
                routes@.len() == i,
                forall|j: int| 0 <= j < i ==> (#[trigger] routes@[j])@ == self.routes.listed()[j],
            decreases self.routes.subscriptions@.len() - i,
        {
            routes.push(
                RouteSpec {
                    subscription: self.routes.subscriptions[i].clone(),
                    review: self.routes.reviewed[i],
                },
            );
            i = i + 1;
        }
        assert(ordered::views(routes@) =~= self.routes.listed());
        Blueprint { config: self.config, routes, dead_letters: self.dead_letters }
    }

    /// Rebuilds a bus: the one that the blueprint describes, unless an id
    /// repeats.
    pub fn from_blueprint(blueprint: &Blueprint) -> (outcome: Result<Bus, SubscribeError>)
        ensures
            rebuilt(blueprint@) == match outcome {
                Ok(bus) => Ok::<_, SubscribeErrorView>(bus@),
                Err(error) => Err(error@),
            },
    {
        let ghost routes = blueprint@.routes;
        let mut bus = Bus::new(blueprint.config);
        assert(routes.take(0) =~= Seq::<blueprint::RouteView>::empty());
        let mut i: usize = 0;
        while i < blueprint.routes.len()
            invariant
                i <= blueprint.routes@.len(),
                routes == blueprint@.routes,
                bus@.config == blueprint.config,
                bus@.dead_letters == false,
                bus@.routes == routes.take(i as int),
                first_repeat(routes.take(i as int)) is None,
            decreases blueprint.routes@.len() - i,
        {
            let route = &blueprint.routes[i];
            assert(routes.take(i + 1).drop_last() =~= routes.take(i as int));
            assert(routes.take(i + 1).last() == route@);
            if let Err(error) = bus.register(route.subscription.clone(), route.review) {
                proof {
                    lemma_repeat_stays(routes, i + 1);
                }
                return Err(error);
            }
            assert(bus@.routes =~= routes.take(i + 1));
            i = i + 1;
        }
        assert(routes.take(i as int) =~= routes);
        if blueprint.dead_letters {
            let _taken = bus.dead_letters_to();
        }
        Ok(bus)
    }
}

proof fn lemma_no_repeat(routes: Seq<blueprint::RouteView>)
    requires
        routing::distinct_ids(subscriptions_of(routes)),
    ensures
        first_repeat(routes) is None,
    decreases routes.len(),
{
    if routes.len() > 0 {
        let rest = routes.drop_last();
        let ids = subscriptions_of(routes);
        assert(routing::distinct_ids(subscriptions_of(rest))) by {
            assert forall|i: int, j: int| 0 <= i < j < rest.len() implies (
            #[trigger] subscriptions_of(rest)[i]).id != (#[trigger] subscriptions_of(rest)[j]).id by {
                assert(ids[i].id != ids[j].id);
            }
        }
        lemma_no_repeat(rest);
        if taken(rest, routes.last().subscription.id) {
            let i = choose|i: int|
                0 <= i < rest.len() && (#[trigger] rest[i]).subscription.id
                    == routes.last().subscription.id;
            assert(ids[i].id != ids[routes.len() - 1].id);
        }
    }
}

proof fn lemma_repeat_stays(routes: Seq<blueprint::RouteView>, n: int)
    requires
        0 <= n <= routes.len(),
        first_repeat(routes.take(n)) is Some,
    ensures
        first_repeat(routes) == first_repeat(routes.take(n)),
    decreases routes.len() - n,
{
    if n < routes.len() {
        assert(routes.take(n + 1).drop_last() =~= routes.take(n));
        lemma_repeat_stays(routes, n + 1);
    } else {
        assert(routes.take(n) =~= routes);
    }
}

/// Law: a bus, whose ids never repeat, is rebuilt from its blueprint as it was.
pub proof fn law_blueprint_round_trip(bus: blueprint::BlueprintView)
    requires
        routing::distinct_ids(subscriptions_of(bus.routes)),
    ensures
        rebuilt(bus) == Ok::<_, SubscribeErrorView>(bus),
{
    lemma_no_repeat(bus.routes);
}

/// Law: registering a subscription keeps the ids apart and is refused exactly
/// where the id is taken.
pub proof fn law_ids_stay_unique(
    bus: blueprint::BlueprintView,
    subscription: subscription::SubscriptionView,
    review: bool,
)
    requires
        routing::distinct_ids(subscriptions_of(bus.routes)),
    ensures
        registered(bus, subscription, review) is Err <==> taken(bus.routes, subscription.id),
        registered(bus, subscription, review) is Ok ==> routing::distinct_ids(
            subscriptions_of(registered(bus, subscription, review)->Ok_0.routes),
        ),
{
    if !taken(bus.routes, subscription.id) {
        let earlier = subscriptions_of(bus.routes);
        let ids = subscriptions_of(registered(bus, subscription, review)->Ok_0.routes);
        assert forall|i: int, j: int| 0 <= i < j < ids.len() implies (#[trigger] ids[i]).id != (
        #[trigger] ids[j]).id by {
            assert(ids[i] == earlier[i]);
            if j < earlier.len() {
                assert(ids[j] == earlier[j]);
            } else {
                assert(bus.routes[i].subscription.id != subscription.id);
            }
        }
    }
}

/// Law: an id is found repeated exactly where two routes share one.
pub proof fn law_first_repeat_finds_repeats(routes: Seq<blueprint::RouteView>)
    ensures
        first_repeat(routes) is None <==> routing::distinct_ids(subscriptions_of(routes)),
    decreases routes.len(),
{
    if routing::distinct_ids(subscriptions_of(routes)) {
        lemma_no_repeat(routes);
    }
    if first_repeat(routes) is None && routes.len() > 0 {
        let rest = routes.drop_last();
        law_first_repeat_finds_repeats(rest);
        let (ids, earlier) = (subscriptions_of(routes), subscriptions_of(rest));
        assert forall|i: int, j: int| 0 <= i < j < ids.len() implies (#[trigger] ids[i]).id != (
        #[trigger] ids[j]).id by {
            assert(ids[i] == earlier[i]);
            if j < rest.len() {
                assert(ids[j] == earlier[j]);
            } else {
                assert(rest[i].subscription.id != routes.last().subscription.id);
            }
        }
    }
}

/// Law: a subscription is refused exactly where its id is in use, by name;
/// else it comes last, with its review egress or without, and everything else
/// stays as it was.
pub proof fn law_a_subscription_registers_under_its_own_id(
    bus: blueprint::BlueprintView,
    subscription: subscription::SubscriptionView,
    review: bool,
)
    ensures
        match registered(bus, subscription, review) {
            Ok(after) => {
                &&& forall|i: int|
                    0 <= i < bus.routes.len() ==> (#[trigger] bus.routes[i]).subscription.id
                        != subscription.id
                &&& after.routes.len() == bus.routes.len() + 1
                &&& after.routes.drop_last() == bus.routes
                &&& after.routes.last().subscription == subscription
                &&& after.routes.last().review == review
                &&& after.config == bus.config
                &&& after.dead_letters == bus.dead_letters
            },
            Err(error) => error == (SubscribeErrorView::Duplicate { id: subscription.id })
                && exists|i: int|
                0 <= i < bus.routes.len() && (#[trigger] bus.routes[i]).subscription.id
                    == subscription.id,
        },
{
    if let Ok(after) = registered(bus, subscription, review) {
        assert(after.routes.drop_last() =~= bus.routes);
    }
}

/// Law: a registration that is refused changes nothing, and one that is not
/// refused changes the bus as expected.
pub proof fn law_a_refused_registration_changes_nothing(
    before: blueprint::BlueprintView,
    after: blueprint::BlueprintView,
    outcome: Result<(), SubscribeError>,
    expected: Result<blueprint::BlueprintView, SubscribeErrorView>,
)
    requires
        registration(before, after, outcome, expected),
    ensures
        outcome is Ok <==> expected is Ok,
        outcome matches Err(error) ==> after == before && expected == Err::<
            blueprint::BlueprintView,
            _,
        >(error@),
        outcome is Ok ==> expected == Ok::<_, SubscribeErrorView>(after),
{
}

/// Law: a blueprint is rebuilt as it is where no id repeats; else the error
/// names the first id that had been used before.
pub proof fn law_a_blueprint_is_rebuilt_or_its_first_repeat_named(
    plan: blueprint::BlueprintView,
)
    ensures
        match rebuilt(plan) {
            Ok(bus) => bus == plan && forall|i: int, j: int|
                0 <= i < j < plan.routes.len() ==> (#[trigger] plan.routes[i]).subscription.id != (
                #[trigger] plan.routes[j]).subscription.id,
            Err(error) => exists|i: int, j: int|
                {
                    &&& 0 <= i < j < plan.routes.len()
                    &&& (#[trigger] plan.routes[i]).subscription.id == (
                    #[trigger] plan.routes[j]).subscription.id
                    &&& error == (SubscribeErrorView::Duplicate {
                        id: plan.routes[j].subscription.id,
                    })
                    &&& forall|k: int, l: int|
                        0 <= k < l < j ==> (#[trigger] plan.routes[k]).subscription.id != (
                        #[trigger] plan.routes[l]).subscription.id
                },
        },
{
    lemma_first_repeat(plan.routes);
}

proof fn lemma_first_repeat(routes: Seq<blueprint::RouteView>)
    ensures
        match first_repeat(routes) {
            None => forall|i: int, j: int|
                0 <= i < j < routes.len() ==> (#[trigger] routes[i]).subscription.id != (
                #[trigger] routes[j]).subscription.id,
            Some(id) => exists|i: int, j: int|
                {
                    &&& 0 <= i < j < routes.len()
                    &&& (#[trigger] routes[i]).subscription.id == (
                    #[trigger] routes[j]).subscription.id
                    &&& id == routes[j].subscription.id
                    &&& forall|k: int, l: int|
                        0 <= k < l < j ==> (#[trigger] routes[k]).subscription.id != (
                        #[trigger] routes[l]).subscription.id
                },
        },
    decreases routes.len(),
{
    if routes.len() > 0 {
        let rest = routes.drop_last();
        let last = routes.len() - 1;
        lemma_first_repeat(rest);
        assert forall|k: int| 0 <= k < last implies #[trigger] routes[k] == rest[k] by {}
        if let Some(id) = first_repeat(rest) {
            let (i, j) = choose|i: int, j: int|
                {
                    &&& 0 <= i < j < rest.len()
                    &&& (#[trigger] rest[i]).subscription.id == (#[trigger] rest[j]).subscription.id
                    &&& id == rest[j].subscription.id
                    &&& forall|k: int, l: int|
                        0 <= k < l < j ==> (#[trigger] rest[k]).subscription.id != (
                        #[trigger] rest[l]).subscription.id
                };
            assert(routes[i] == rest[i] && routes[j] == rest[j]);
            assert forall|k: int, l: int| 0 <= k < l < j implies (
            #[trigger] routes[k]).subscription.id != (#[trigger] routes[l]).subscription.id by {
                assert(routes[k] == rest[k] && routes[l] == rest[l]);
            }
        } else {
            assert forall|k: int, l: int| 0 <= k < l < last implies (
            #[trigger] routes[k]).subscription.id != (#[trigger] routes[l]).subscription.id by {
                assert(routes[k] == rest[k] && routes[l] == rest[l]);
            }
            if taken(rest, routes[last].subscription.id) {
                let i = choose|i: int|
                    0 <= i < rest.len() && (#[trigger] rest[i]).subscription.id
                        == routes[last].subscription.id;
                assert(routes[i] == rest[i]);
            } else {
                assert forall|k: int, l: int| 0 <= k < l < routes.len() implies (
                #[trigger] routes[k]).subscription.id != (
                #[trigger] routes[l]).subscription.id by {
                    if l == last {
                        assert(rest[k].subscription.id != routes[last].subscription.id);
                    }
                }
            }
        }
    }
}

/// Law: the subscriptions of a bus are those of its routes, in the order of
/// registration.
pub proof fn law_subscriptions_come_in_route_order(routes: Seq<blueprint::RouteView>, i: int)
    requires
        0 <= i < routes.len(),
    ensures
        subscriptions_of(routes).len() == routes.len(),
        subscriptions_of(routes)[i] == routes[i].subscription,
{
}

/// Law: an error of the bus says in words what it is about: the id that was in
/// use, or what the ledger or the source said.
pub proof fn law_bus_errors_name_their_subject(
    id: Seq<char>,
    ledger_error: ledger::LedgerErrorView,
    source_error: source::SourceErrorView,
)
    ensures
        subscribe_error_text(SubscribeErrorView::Duplicate { id }) == "subscription "@ + id
            + " already exists"@,
        subscribe_error_text(SubscribeErrorView::DeadLettersTaken)
            == "dead-letter sink already registered"@,
        run_error_text(RunErrorView::Ledger(ledger_error)) == ledger::ledger_error_text(
            ledger_error,
        ),
        run_error_text(RunErrorView::Source(source_error)) == source::source_error_text(
            source_error,
        ),
        run_error_text(RunErrorView::BreakerPoisoned) == "breaker lock poisoned"@,
{
}

} // verus!

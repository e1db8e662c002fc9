//! The data half of a bus.
//!
//! A [`Blueprint`] holds everything about a bus that is a value: policy,
//! retry and breaker settings, the subscriptions, and which routes have a
//! review or dead-letter egress. It leaves out the handles: the judge, the
//! ledger, the timer and the sinks, which are effects and are supplied when
//! the bus is rebuilt.

use crate::bus::BusConfig;
use crate::ordered;
use crate::ordered::{replicas, Replica};
use crate::subscription;
use crate::subscription::Subscription;
use vstd::prelude::*;

verus! {

/// What a [`RouteSpec`] stands for.
#[verifier::ext_equal]
pub struct RouteView {
    /// The subscription.
    pub subscription: subscription::SubscriptionView,
    /// Whether review-band events have somewhere to go.
    pub review: bool,
}

/// One subscription and whether it has a review egress.
#[derive(Debug, PartialEq, Eq)]
pub struct RouteSpec {
    /// The subscription.
    pub subscription: Subscription,
    /// Whether review-band events have somewhere to go.
    pub review: bool,
}

impl View for RouteSpec {
    type V = RouteView;

    open spec fn view(&self) -> RouteView {
        RouteView { subscription: self.subscription@, review: self.review }
    }
}

impl Clone for RouteSpec {
    fn clone(&self) -> (copy: RouteSpec)
        ensures
            copy@ == self@,
    {
        RouteSpec { subscription: self.subscription.clone(), review: self.review }
    }
}

impl Replica for RouteSpec {
    fn replica(&self) -> (copy: RouteSpec) {
        self.clone()
    }
}

/// Everything about a bus that is a value.
#[verifier::ext_equal]
pub struct BlueprintView {
    /// Policy, concurrency, retry and breaker settings.
    pub config: BusConfig,
    /// Routes in registration order.
    pub routes: Seq<RouteView>,
    /// Whether failed events have somewhere to go.
    pub dead_letters: bool,
}

/// Everything about a bus that is a value.
#[derive(Debug, PartialEq, Eq)]
pub struct Blueprint {
    /// Policy, concurrency, retry and breaker settings.
    pub config: BusConfig,
    /// Routes in registration order.
    pub routes: Vec<RouteSpec>,
    /// Whether failed events have somewhere to go.
    pub dead_letters: bool,
}

impl View for Blueprint {
    type V = BlueprintView;

    open spec fn view(&self) -> BlueprintView {
        BlueprintView {
            config: self.config,
            routes: ordered::views(self.routes@),
            dead_letters: self.dead_letters,
        }
    }
}

impl Clone for Blueprint {
    fn clone(&self) -> (copy: Blueprint)
        ensures
            copy@ == self@,
    {
        Blueprint {
            config: self.config,
            routes: replicas(self.routes.as_slice()),
            dead_letters: self.dead_letters,
        }
    }
}

/// Which egress of a route a sink is for.
#[derive(Debug, Clone, Copy, PartialEq, Eq, Structural)]
pub enum Role {
    /// Events at or above the deliver threshold.
    Deliver,
    /// Events in the review band.
    Review,
}

} // verus!

//! A streaming event bus whose routing is decided by a probabilistic judge.
//!
//! An [`Event`] carries a [`Payload`]. A [`Subscription`] is a plain-language
//! description of the events a consumer wants, plus a [`Thresholds`] policy.
//! For every event the bus asks a judge once, receives one [`Probability`] per
//! subscription, and turns each into a [`Disposition`]: deliver, review, or
//! drop. Every outcome, including drops, is written to a ledger.
//!
//! This crate is the part of the bus that computes and decides. Each decision
//! between two effects is a step: the caller performs the effect that a step
//! names (ask the judge, append a row, sleep, publish, acknowledge) and hands
//! back what came of it.
//!
//! * [`routing`] maps subscriptions to a [`QuestionSet`] and an [`AnswerSet`]
//!   back to [`Verdict`]s.
//! * [`lifecycle`] and [`breaker`] are the per-event state machine and the
//!   circuit breaker, encoded in types; [`walk`] takes an event through them.
//! * [`dispatch`] takes what was judged to the sinks, the ledger and the source.
//! * [`bus`] and [`blueprint`] are a bus as data; [`run`] fixes its questions.
//! * [`cache`] and [`cache_key`] decorate a judge with a cache of its answers.
//! * [`merge`] groups events before they reach the bus; [`link`] chains one bus
//!   into another.
//! * [`jev`] is the wire format and the HTTP exchange of TypeSafe AI's Jev.

pub mod blueprint;
pub mod breaker;
pub mod bus;
pub mod cache;
pub mod cache_key;
pub mod delivery;
pub mod dispatch;
pub mod double;
pub mod drive;
pub mod event;
pub mod jev;
pub mod judge;
pub mod ledger;
pub mod lifecycle;
pub mod link;
pub mod merge;
pub mod num;
pub mod ordered;
pub mod probability;
pub mod question;
pub mod routing;
pub mod run;
pub mod sink;
pub mod source;
pub mod subscription;
pub mod text;
pub mod time;
pub mod walk;

pub use blueprint::{Blueprint, Role, RouteSpec};
pub use breaker::{Breaker, BreakerPolicy, Shared};
pub use bus::{Bus, BusConfig, RunError, SubscribeError};
pub use cache::{CacheError, CacheStats, Cached, MemoryLru, Ttl, ZeroTtl};
pub use cache_key::CacheKey;
pub use delivery::{DeadLetter, Delivery};
pub use dispatch::Dispatch;
pub use double::Double;
pub use drive::Drive;
pub use event::{EmptyId, Event, EventId, Payload};
pub use judge::JudgeError;
pub use ledger::{Entry, JudgeFailure, LedgerError, MemoryLedger, Outcome, Record};
pub use lifecycle::{Attempt, Attempts, EventState, Recorded, RetryPolicy, TrackedEvent};
pub use merge::{CombineError, ConcatByKey, MergeFailure, WindowPolicy};
pub use num::{NonZeroU32, NonZeroUsize};
pub use ordered::OrderedMap;
pub use probability::{Probability, ProbabilityError};
pub use question::{Answer, AnswerSet, Question, QuestionName, QuestionSet};
pub use routing::{AnswerKind, Policy, RoutingError, Verdict};
pub use run::Run;
pub use sink::SinkError;
pub use source::{AckError, Envelope, NoAck, SourceError};
pub use subscription::{Disposition, Subscription, SubscriptionId, ThresholdError, Thresholds};
pub use time::{Duration, Instant};
pub use walk::Walk;

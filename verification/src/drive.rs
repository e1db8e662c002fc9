//! The loop of a run: judged events are taken in input order, and each is
//! dispatched to its end before the next one is taken.
//!
//! The caller takes judged events and performs the steps of each dispatch; a
//! [`Drive`] says which of the two comes next, and when the run is over.

use crate::blueprint;
use crate::bus;
use crate::bus::{Bus, RunError};
use crate::dispatch;
use crate::dispatch::Dispatch;
use crate::walk;
use crate::walk::JudgePhase;
use vstd::prelude::*;

verus! {

/// What a run does next.
pub enum Drive<A> {
    /// Take the next judged event, in input order.
    Take,
    /// Perform a step of the dispatch of the event taken last.
    Dispatch {
        /// The step.
        step: Dispatch,
        /// What acknowledges the event, until it has been acknowledged.
        ack: Option<A>,
    },
    /// The run is over.
    Ended(Result<(), RunError>),
}

/// What a [`Drive`] stands for.
#[verifier::ext_equal]
pub enum DriveView {
    /// Take the next judged event.
    Take,
    /// Perform a step of a dispatch.
    Dispatch(dispatch::DispatchView),
    /// The run is over.
    Ended(Result<(), bus::RunErrorView>),
}

/// How a run ended, by its view.
pub open spec fn end_view(end: Result<(), RunError>) -> Result<(), bus::RunErrorView> {
    match end {
        Ok(()) => Ok(()),
        Err(error) => Err(error@),
    }
}

impl<A> View for Drive<A> {
    type V = DriveView;

    open spec fn view(&self) -> DriveView {
        match *self {
            Drive::Take => DriveView::Take,
            Drive::Dispatch { step, .. } => DriveView::Dispatch(step@),
            Drive::Ended(end) => DriveView::Ended(end_view(end)),
        }
    }
}

/// The next judged event: none where the input has ended, an error where the
/// source, the ledger or the breaker stopped the run.
pub type NextView = Option<Result<walk::JudgePhaseView, bus::RunErrorView>>;

/// The next judged event by its view.
pub open spec fn next_view<A>(next: Option<Result<(JudgePhase, A), RunError>>) -> NextView {
    match next {
        Some(Ok((phase, _))) => Some(Ok(walk::phase_view(phase))),
        Some(Err(error)) => Some(Err(error@)),
        None => None,
    }
}

/// What follows once the next judged event was taken.
pub open spec fn after_take(bus: blueprint::BlueprintView, next: NextView) -> DriveView {
    match next {
        Some(Ok(phase)) => DriveView::Dispatch(dispatch::dispatch_start(bus, phase)),
        Some(Err(error)) => DriveView::Ended(Err(error)),
        None => DriveView::Ended(Ok(())),
    }
}

/// What follows once a dispatch has come to `step`.
pub open spec fn after_step(step: dispatch::DispatchView) -> DriveView {
    match step {
        dispatch::DispatchView::Done => DriveView::Take,
        dispatch::DispatchView::Stopped(error) => DriveView::Ended(Err(error)),
        other => DriveView::Dispatch(other),
    }
}

impl<A> Drive<A> {
    /// The start of a run.
    pub fn start() -> (drive: Drive<A>)
        ensures
            drive@ == DriveView::Take,
    {
        Drive::Take
    }

    /// The next judged event was taken, or there is none, or the run stops.
    pub fn taken(bus: &Bus, next: Option<Result<(JudgePhase, A), RunError>>) -> (drive: Drive<A>)
        ensures
            drive@ == after_take(bus@, next_view(next)),
            next matches Some(Ok((_, handle))) ==> (drive matches Drive::Dispatch { ack, .. }
                && ack == Some(handle)),
    {
        match next {
            Some(Ok((phase, ack))) => Drive::Dispatch {
                step: Dispatch::start(bus, phase),
                ack: Some(ack),
            },
            Some(Err(error)) => Drive::Ended(Err(error)),
            None => Drive::Ended(Ok(())),
        }
    }

    /// The dispatch of the event taken last has come to `step`.
    pub fn reached(step: Dispatch, ack: Option<A>) -> (drive: Drive<A>)
        ensures
            drive@ == after_step(step@),
            drive matches Drive::Dispatch { ack: kept, .. } ==> kept == ack,
    {
        match step {
            Dispatch::Done => Drive::Take,
            Dispatch::Stopped(error) => Drive::Ended(Err(error)),
            Dispatch::Publish(publish) => Drive::Dispatch { step: Dispatch::Publish(publish), ack },
            Dispatch::Record(rows) => Drive::Dispatch { step: Dispatch::Record(rows), ack },
            Dispatch::Bury(bury) => Drive::Dispatch { step: Dispatch::Bury(bury), ack },
            Dispatch::Acknowledge(handled) => Drive::Dispatch {
                step: Dispatch::Acknowledge(handled),
                ack,
            },
        }
    }
}

/// One thing that happens in a run.
pub enum DriveMove {
    /// The next judged event is taken.
    Takes(NextView),
    /// The dispatch under way comes to its next step.
    Reaches(dispatch::DispatchView),
}

/// A run, with what has gone through it.
#[verifier::ext_equal]
pub struct DriveRun {
    /// What comes next.
    pub drive: DriveView,
    /// The identities of the events that were taken, in order.
    pub taken: Seq<Seq<char>>,
    /// The identities of the events whose source was told, in order.
    pub acknowledged: Seq<Seq<char>>,
}

/// A run that has not begun.
pub open spec fn fresh_drive() -> DriveRun {
    DriveRun { drive: DriveView::Take, taken: Seq::empty(), acknowledged: Seq::empty() }
}

/// The run after one more move. A move that cannot happen changes nothing.
pub open spec fn driven(
    bus: blueprint::BlueprintView,
    run: DriveRun,
    m: DriveMove,
) -> DriveRun {
    match (run.drive, m) {
        (DriveView::Take, DriveMove::Takes(next)) => DriveRun {
            drive: after_take(bus, next),
            taken: match next {
                Some(Ok(phase)) => run.taken.push(dispatch::event_of(phase).id),
                _ => run.taken,
            },
            ..run
        },
        (
            DriveView::Dispatch(before),
            DriveMove::Reaches(after),
        ) => if dispatch::dispatch_follows(before, after) {
            DriveRun {
                drive: after_step(after),
                acknowledged: match before {
                    dispatch::DispatchView::Acknowledge(event) => run.acknowledged.push(event),
                    _ => run.acknowledged,
                },
                ..run
            }
        } else {
            run
        },
        _ => run,
    }
}

/// The run after `moves`.
pub open spec fn after_drive(bus: blueprint::BlueprintView, moves: Seq<DriveMove>) -> DriveRun
    decreases moves.len(),
{
    if moves.len() == 0 {
        fresh_drive()
    } else {
        driven(bus, after_drive(bus, moves.drop_last()), moves.last())
    }
}

/// The event taken last has been acknowledged, unless its dispatch is still
/// short of that.
spec fn in_step(run: DriveRun) -> bool {
    match run.drive {
        DriveView::Take => run.acknowledged == run.taken,
        DriveView::Ended(Ok(())) => run.acknowledged == run.taken,
        DriveView::Ended(Err(_)) => run.acknowledged == run.taken || (run.taken.len() > 0
            && run.acknowledged == run.taken.drop_last()),
        DriveView::Dispatch(step) => run.taken.len() > 0 && dispatch::dispatch_sound(
            run.taken.last(),
            step,
        ) && run.acknowledged == if step matches dispatch::DispatchView::Record(rows)
            && rows.after is Finish {
            run.taken
        } else {
            run.taken.drop_last()
        },
    }
}

proof fn lemma_in_step(bus: blueprint::BlueprintView, moves: Seq<DriveMove>)
    ensures
        in_step(after_drive(bus, moves)),
    decreases moves.len(),
{
    if moves.len() > 0 {
        lemma_in_step(bus, moves.drop_last());
        let run = after_drive(bus, moves.drop_last());
        match (run.drive, moves.last()) {
            (DriveView::Take, DriveMove::Takes(Some(Ok(phase)))) => {
                dispatch::law_dispatch_starts_sound(bus, phase);
                assert(run.taken.push(dispatch::event_of(phase).id).drop_last() =~= run.taken);
            },
            (DriveView::Dispatch(before), DriveMove::Reaches(after)) => {
                if dispatch::dispatch_follows(before, after) {
                    dispatch::law_dispatch_stays_sound(run.taken.last(), before, after);
                    assert(run.taken.drop_last().push(run.taken.last()) =~= run.taken);
                }
            },
            _ => {},
        }
    }
}

/// Law: events are acknowledged in input order, each once, and an event that the
/// run never reaches is never acknowledged. Every event that was taken has been
/// acknowledged by the time the next one is taken or the input ends; only the
/// one during whose dispatch the run stopped may be left out.
pub proof fn law_events_are_acknowledged_in_input_order(
    bus: blueprint::BlueprintView,
    moves: Seq<DriveMove>,
)
    ensures
        ({
            let run = after_drive(bus, moves);
            &&& run.acknowledged.len() <= run.taken.len() <= run.acknowledged.len() + 1
            &&& run.acknowledged == run.taken.take(run.acknowledged.len() as int)
            &&& run.drive is Take ==> run.acknowledged == run.taken
            &&& run.drive == DriveView::Ended(Ok(())) ==> run.acknowledged == run.taken
        }),
{
    lemma_in_step(bus, moves);
    let run = after_drive(bus, moves);
    assert(run.taken.take(run.taken.len() as int) =~= run.taken);
    if run.taken.len() > 0 {
        assert(run.taken.take(run.taken.len() - 1) =~= run.taken.drop_last());
    }
}

/// Law: a run ends well exactly where its input ends. It ends badly where taking
/// an event failed or a row of a dispatch could not be written, with that very
/// error; nothing that a judge or a sink does ends it.
pub proof fn law_what_ends_a_run(bus: blueprint::BlueprintView, run: DriveRun, m: DriveMove)
    requires
        !(run.drive is Ended),
        driven(bus, run, m).drive is Ended,
    ensures
        match driven(bus, run, m).drive->Ended_0 {
            Ok(()) => run.drive is Take && m == DriveMove::Takes(None),
            Err(error) => (run.drive is Take && m == DriveMove::Takes(Some(Err(error)))) || (
            run.drive matches DriveView::Dispatch(dispatch::DispatchView::Record(rows))
                && exists|fault: crate::ledger::LedgerErrorView|
                error == bus::RunErrorView::Ledger(fault) && m == DriveMove::Reaches(
                    #[trigger] dispatch::after_rows(rows, Err(fault)),
                )),
        },
{
}

/// Law: each event that is taken is dispatched from the start, step by step, to
/// its end; then the next one is taken. The run ends well where no event is
/// left, and with the error where taking or dispatching one failed.
pub proof fn law_each_taken_event_is_dispatched(
    bus: blueprint::BlueprintView,
    phase: walk::JudgePhaseView,
    error: bus::RunErrorView,
    step: dispatch::DispatchView,
)
    ensures
        after_take(bus, Some(Ok(phase))) == DriveView::Dispatch(
            dispatch::dispatch_start(bus, phase),
        ),
        after_take(bus, Some(Err(error))) == DriveView::Ended(Err(error)),
        after_take(bus, None) == DriveView::Ended(Ok(())),
        after_step(dispatch::DispatchView::Done) is Take,
        after_step(dispatch::DispatchView::Stopped(error)) == DriveView::Ended(Err(error)),
        !(step is Done) && !(step is Stopped) ==> after_step(step) == DriveView::Dispatch(step),
{
}

/// Law: what comes next is taken as it is: a judged event by its phase, an error
/// as that error, and the end as the end.
pub proof fn law_what_comes_next_is_taken_as_it_is<A>(
    phase: JudgePhase,
    handle: A,
    error: RunError,
)
    ensures
        next_view(Some(Ok((phase, handle)))) == Some(
            Ok::<_, bus::RunErrorView>(walk::phase_view(phase)),
        ),
        next_view::<A>(Some(Err(error))) == Some(Err::<walk::JudgePhaseView, _>(error@)),
        next_view::<A>(None) is None,
        end_view(Ok(())) is Ok,
        end_view(Err(error)) == Err::<(), _>(error@),
{
}

} // verus!

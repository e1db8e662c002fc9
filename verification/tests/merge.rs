//! The merge stage.

use jevbus::merge::{Stage, StageStep, Timer};
use jevbus::{
    CombineError, ConcatByKey, Duration, Event, EventId, MergeFailure, NonZeroUsize, Payload,
    WindowPolicy,
};

fn event(id: &str, text: &str) -> Event {
    Event::new(EventId::new(id).unwrap(), Payload::new(text))
}

/// Key is the text before the first ':'; no ':' means pass-through.
fn prefix(event: &Event) -> Option<String> {
    event
        .payload()
        .as_str()
        .split_once(':')
        .map(|(k, _)| k.to_owned())
}

fn policy(max_parts: usize) -> WindowPolicy {
    WindowPolicy {
        span: Duration::from_millis(1_000),
        max_parts: NonZeroUsize::new(max_parts).unwrap(),
    }
}

fn ids(items: &[Result<Event, MergeFailure>]) -> Vec<String> {
    items
        .iter()
        .map(|item| match item {
            Ok(event) => event.id().as_str().to_owned(),
            Err(failure) => format!("failure({})", failure.parts.len()),
        })
        .collect()
}

/// A stage with the reference combiner, and the timers it asked for.
struct Driver {
    stage: Stage<String>,
    timers: Vec<Timer<String>>,
    out: Vec<Result<Event, MergeFailure>>,
}

impl Driver {
    fn new(max_parts: usize) -> Driver {
        Driver {
            stage: Stage::new(policy(max_parts)),
            timers: vec![],
            out: vec![],
        }
    }

    fn arrive(&mut self, event: Event) {
        let combiner = ConcatByKey::new(prefix);
        match combiner.key(&event) {
            None => self.stage.pass(event),
            Some(key) => {
                let admission = self.stage.admit_event(event, key);
                self.timers.extend(admission.timer);
                if let Some(step) = admission.flush {
                    let result = combiner.combine(step.parts());
                    self.stage.combined(step, result);
                }
            }
        }
        self.drain();
    }

    fn fire(&mut self, timer: usize) {
        let combiner = ConcatByKey::new(prefix);
        let timer = &self.timers[timer];
        if let Some(step) = self.stage.due(&timer.key, timer.generation) {
            let result = combiner.combine(step.parts());
            self.stage.combined(step, result);
        }
        self.drain();
    }

    fn drain(&mut self) {
        let combiner = ConcatByKey::new(prefix);
        loop {
            match self.stage.next_step() {
                StageStep::Yield(item) => self.out.push(item),
                StageStep::Combine(step) => {
                    let result = combiner.combine(step.parts());
                    self.stage.combined(step, result);
                }
                StageStep::Wait | StageStep::End => return,
            }
        }
    }

    fn end(&mut self) {
        self.stage.input_ended();
        self.drain();
        assert!(matches!(self.stage.next_step(), StageStep::End));
    }
}

#[test]
fn groups_by_key_and_flushes_everything_when_input_ends() {
    let mut driver = Driver::new(10);
    driver.arrive(event("1", "u1:hello"));
    driver.arrive(event("2", "u2:hi"));
    driver.arrive(event("3", "u1:again"));
    driver.arrive(event("4", "no key"));
    driver.end();
    assert_eq!(ids(&driver.out), ["4", "1+2", "2+1"]);
    let Some(Ok(merged)) = driver.out.get(1) else {
        panic!("the first group is combined");
    };
    assert_eq!(merged.payload().as_str(), "u1:hello\nu1:again");
    assert_eq!(merged.parts().len(), 2);
    assert_eq!(driver.timers.len(), 2);
}

#[test]
fn a_full_group_flushes_at_once_without_waiting_for_the_window() {
    let mut driver = Driver::new(2);
    driver.arrive(event("1", "u1:a"));
    assert!(driver.out.is_empty());
    driver.arrive(event("2", "u1:b"));
    assert_eq!(ids(&driver.out), ["1+2"]);
}

#[test]
fn a_stale_timer_does_not_flush_a_newer_group_with_the_same_key() {
    let mut driver = Driver::new(2);
    // Group 1 opens and fills at once.
    driver.arrive(event("1", "u1:a"));
    driver.arrive(event("2", "u1:b"));
    // Group 2 opens under the same key.
    driver.arrive(event("3", "u1:c"));
    // Group 1's timer fires; group 2 must still be open.
    driver.fire(0);
    assert_eq!(ids(&driver.out), ["1+2"]);
    // Group 2's own timer flushes it.
    driver.fire(1);
    assert_eq!(ids(&driver.out), ["1+2", "3+1"]);
}

#[test]
fn a_rejected_group_is_returned_intact_as_a_failure() {
    let mut stage: Stage<u64> = Stage::new(policy(10));
    let parts = vec![event("1", "a"), event("2", "b")];
    for part in &parts {
        let admission = stage.admit_event(part.clone(), 0);
        assert!(admission.flush.is_none());
    }
    stage.input_ended();
    let StageStep::Combine(step) = stage.next_step() else {
        panic!("the group is flushed");
    };
    assert_eq!(step.parts(), parts);
    let cause = CombineError::Rejected {
        reason: "never".into(),
    };
    assert_eq!(cause.message(), "combiner rejected the group: never");
    stage.combined(step, Err(cause.clone()));
    let StageStep::Yield(item) = stage.next_step() else {
        panic!("the failure is ready");
    };
    assert_eq!(ids(&[item.clone()]), ["failure(2)"]);
    assert_eq!(item, Err(MergeFailure { parts, cause }));
    assert!(matches!(stage.next_step(), StageStep::End));
}

#[test]
fn a_group_of_one_starts_a_timer_and_is_flushed_at_once() {
    let mut driver = Driver::new(1);
    driver.arrive(event("1", "k:a"));
    assert_eq!(ids(&driver.out), ["1+1"]);
    assert_eq!(driver.timers.len(), 1);
    driver.fire(0);
    assert_eq!(driver.out.len(), 1);
}

#[test]
fn a_timer_runs_for_the_window_of_the_policy() {
    let mut driver = Driver::new(2);
    assert_eq!(driver.stage.window(), Duration::from_millis(1_000));
    driver.arrive(event("1", "k:a"));
    driver.arrive(event("2", "k:b"));
    driver.arrive(event("3", "l:c"));
    driver.arrive(event("4", "k:d"));
    assert_eq!(driver.stage.window(), Duration::from_millis(1_000));
    let started: Vec<(&str, u64, Duration)> = driver
        .timers
        .iter()
        .map(|timer| (timer.key.as_str(), timer.generation, timer.span))
        .collect();
    let span = Duration::from_millis(1_000);
    assert_eq!(started, [("k", 1, span), ("l", 2, span), ("k", 3, span)]);
}

#[test]
fn open_groups_flush_in_key_order() {
    let mut driver = Driver::new(9);
    for (id, text) in [("1", "b:"), ("2", "a:"), ("3", "c:"), ("4", "a:")] {
        driver.arrive(event(id, text));
    }
    driver.end();
    assert_eq!(ids(&driver.out), ["2+2", "1+1", "3+1"]);
}

#[test]
fn nothing_cannot_be_concatenated() {
    let combiner = ConcatByKey::new(prefix);
    let error = combiner.combine(&[]).unwrap_err();
    assert_eq!(error, CombineError::Empty);
    assert_eq!(error.message(), "nothing to combine");
    let merged = combiner.combine(&[event("x", "1")]).unwrap();
    assert_eq!(merged.id().as_str(), "x+1");
    assert_eq!(merged.payload().as_str(), "1");
    assert_eq!(merged.parts()[0].as_str(), "x");
}

#[test]
fn no_event_is_lost_and_groups_keep_arrival_order() {
    let mut driver = Driver::new(3);
    let arrivals = [
        ("1", "a:"),
        ("2", "pass"),
        ("3", "b:"),
        ("4", "a:"),
        ("5", "a:"),
        ("6", "also"),
        ("7", "a:"),
    ];
    for (id, text) in arrivals {
        driver.arrive(event(id, text));
    }
    driver.end();
    let left: Vec<Vec<String>> = driver
        .out
        .iter()
        .map(|item| {
            let merged = item.as_ref().unwrap();
            if merged.is_composite() {
                merged
                    .parts()
                    .iter()
                    .map(|part| part.as_str().to_owned())
                    .collect()
            } else {
                vec![merged.id().as_str().to_owned()]
            }
        })
        .collect();
    assert_eq!(
        left,
        [
            vec!["2"],
            vec!["1", "4", "5"],
            vec!["6"],
            vec!["7"],
            vec!["3"]
        ]
    );
}

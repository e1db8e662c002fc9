//! Merging several events into one before they reach the bus.
//!
//! A [`Stage`] groups events by a key, keeps each group open for
//! [`WindowPolicy::span`] or until it holds [`WindowPolicy::max_parts`] events,
//! then has the group combined into one event. Events without a key pass
//! through untouched. When the input ends every open group is flushed in key
//! order.
//!
//! Invariant: no event is lost. Every input event leaves the stage either as
//! itself, inside a group that is handed to the combiner, or inside a
//! [`MergeFailure`].

use crate::event;
use crate::event::{Event, EventId, Payload};
use crate::num::NonZeroUsize;
use crate::ordered;
use crate::ordered::{replicas, MapKey, OrderedMap, Replica};
use crate::text;
use crate::text::decimal_text;
use crate::time::Duration;
use std::collections::VecDeque;
use vstd::multiset::*;
use vstd::prelude::*;

verus! {

/// Why a group could not be combined.
#[derive(Debug, PartialEq, Eq)]
pub enum CombineError {
    /// The combiner was given no parts. The stage never does this.
    Empty,
    /// The combiner declined the group.
    Rejected {
        /// Why.
        reason: String,
    },
}

/// What a [`CombineError`] stands for.
#[verifier::ext_equal]
pub enum CombineErrorView {
    /// The combiner was given no parts.
    Empty,
    /// The combiner declined the group.
    Rejected { reason: Seq<char> },
}

impl View for CombineError {
    type V = CombineErrorView;

    open spec fn view(&self) -> CombineErrorView {
        match *self {
            CombineError::Empty => CombineErrorView::Empty,
            CombineError::Rejected { reason } => CombineErrorView::Rejected { reason: reason@ },
        }
    }
}

/// A combine error in words.
pub open spec fn combine_error_text(error: CombineErrorView) -> Seq<char> {
    match error {
        CombineErrorView::Empty => "nothing to combine"@,
        CombineErrorView::Rejected { reason } => "combiner rejected the group: "@ + reason,
    }
}

impl CombineError {
    /// What went wrong, in words.
    pub fn message(&self) -> (text: String)
        ensures
            text@ == combine_error_text(self@),
    {
        match self {
            CombineError::Empty => "nothing to combine".to_owned(),
            CombineError::Rejected { reason } => {
                let mut text = "combiner rejected the group: ".to_owned();
                text.append(reason.as_str());
                text
            },
        }
    }
}

impl Clone for CombineError {
    fn clone(&self) -> (copy: CombineError)
        ensures
            copy == *self,
    {
        match self {
            CombineError::Empty => CombineError::Empty,
            CombineError::Rejected { reason } => CombineError::Rejected { reason: reason.clone() },
        }
    }
}

/// What a [`MergeFailure`] stands for.
#[verifier::ext_equal]
pub struct MergeFailureView {
    /// The events, in arrival order.
    pub parts: Seq<event::EventView>,
    /// Why.
    pub cause: CombineErrorView,
}

/// A group the stage gave up on, with the events it held.
#[derive(Debug, PartialEq, Eq)]
pub struct MergeFailure {
    /// The events, in arrival order. Nothing is lost.
    pub parts: Vec<Event>,
    /// Why.
    pub cause: CombineError,
}

impl View for MergeFailure {
    type V = MergeFailureView;

    open spec fn view(&self) -> MergeFailureView {
        MergeFailureView { parts: ordered::views(self.parts@), cause: self.cause@ }
    }
}

impl Clone for MergeFailure {
    fn clone(&self) -> (copy: MergeFailure)
        ensures
            copy@ == self@,
    {
        MergeFailure { parts: replicas(self.parts.as_slice()), cause: self.cause.clone() }
    }
}

/// When a group is flushed.
#[derive(Debug, Clone, Copy, PartialEq, Eq, Structural)]
pub struct WindowPolicy {
    /// How long a group stays open after its first event.
    pub span: Duration,
    /// Flush as soon as a group holds this many events.
    pub max_parts: NonZeroUsize,
}

/// The payloads of `parts`, one per line.
pub open spec fn lines(parts: Seq<event::EventView>) -> Seq<char>
    decreases parts.len(),
{
    if parts.len() == 0 {
        Seq::empty()
    } else if parts.len() == 1 {
        parts[0].payload
    } else {
        lines(parts.drop_last()) + "\n"@ + parts.last().payload
    }
}

/// The identities of `parts`, in order.
pub open spec fn part_ids(parts: Seq<event::EventView>) -> Seq<Seq<char>> {
    Seq::new(parts.len(), |i: int| parts[i].id)
}

/// `parts` as one event: `<first id>+<count>`, the payloads one per line, and
/// the parts as its lineage.
pub open spec fn concatenated(parts: Seq<event::EventView>) -> event::EventView {
    event::EventView {
        id: parts[0].id + "+"@ + text::decimal(parts.len()),
        payload: lines(parts),
        parts: part_ids(parts),
    }
}

/// Concatenates payloads of events that share a string key.
///
/// The merged id is `<first id>+<count>` and the payload joins the parts
/// with newlines. This is the simplest useful combiner and the reference
/// implementation for tests.
#[derive(Debug)]
pub struct ConcatByKey<F> {
    key: F,
}

impl<F> ConcatByKey<F> {
    /// The function that assigns keys.
    pub closed spec fn key_function(&self) -> F {
        self.key
    }
}

impl<F> ConcatByKey<F> where F: Fn(&Event) -> Option<String> {
    /// Groups by `key`.
    pub fn new(key: F) -> (combiner: ConcatByKey<F>)
        ensures
            combiner.key_function() == key,
    {
        ConcatByKey { key }
    }

    /// The group `event` belongs to, or `None` to pass it through unmerged.
    pub fn key(&self, event: &Event) -> (key: Option<String>)
        requires
            call_requires(self.key_function(), (event,)),
        ensures
            call_ensures(self.key_function(), (event,), key),
    {
        (self.key)(event)
    }
}

impl<F> ConcatByKey<F> {
    /// Folds a group into one event.
    pub fn combine(&self, parts: &[Event]) -> (combined: Result<Event, CombineError>)
        ensures
            match combined {
                Ok(event) => parts@.len() > 0 && event@ == concatenated(ordered::views(parts@)),
                Err(error) => parts@.len() == 0 && error == CombineError::Empty,
            },
    {
        if parts.len() == 0 {
            return Err(CombineError::Empty);
        }
        let ghost group = ordered::views(parts@);
        let mut id = parts[0].id().as_str().to_owned();
        id.append("+");
        id.append(decimal_text(parts.len() as u64).as_str());
        let mut payload = parts[0].payload().as_str().to_owned();
        let mut i: usize = 1;
        assert(group.take(1)[0] == group[0]);
        while i < parts.len()
            invariant
                1 <= i <= parts@.len(),
                group == ordered::views(parts@),
                payload@ == lines(group.take(i as int)),
            decreases parts@.len() - i,
        {
            payload.append("\n");
            payload.append(parts[i].payload().as_str());
            proof {
                assert(group.take(i + 1).drop_last() =~= group.take(i as int));
                assert(group.take(i + 1).last() == group[i as int]);
            }
            i = i + 1;
        }
        proof {
            assert(group.take(i as int) =~= group);
            assert(event::identities(parts@) =~= part_ids(group));
        }
        match EventId::new(id.as_str()) {
            Ok(id) => Ok(Event::merged(id, Payload::new(payload.as_str()), parts)),
            Err(_) => Err(CombineError::Rejected { reason: "empty id".to_owned() }),
        }
    }
}

/// What a [`Group`] stands for.
#[verifier::ext_equal]
pub struct GroupView {
    /// The events, in arrival order.
    pub parts: Seq<event::EventView>,
    /// Which of the groups under its key it is.
    pub generation: u64,
}

/// One open group.
#[derive(Debug)]
pub struct Group {
    parts: Vec<Event>,
    /// Distinguishes this group from an earlier one with the same key whose
    /// timer may still be pending.
    generation: u64,
}

impl View for Group {
    type V = GroupView;

    closed spec fn view(&self) -> GroupView {
        GroupView { parts: ordered::views(self.parts@), generation: self.generation }
    }
}

/// What leaves the stage: an event, or a group that could not be combined.
pub type Item = Result<Event, MergeFailure>;

/// What an [`Item`] stands for.
pub type ItemView = Result<event::EventView, MergeFailureView>;

/// An item by its view.
pub open spec fn item_view(item: Item) -> ItemView {
    match item {
        Ok(event) => Ok(event@),
        Err(failure) => Err(failure@),
    }
}

/// Items by their views.
pub open spec fn item_views(items: Seq<Item>) -> Seq<ItemView> {
    Seq::new(items.len(), |i: int| item_view(items[i]))
}

/// What a [`Stage`] holds between yielded items.
#[verifier::ext_equal]
#[verifier::reject_recursive_types(K)]
pub struct StageView<K> {
    /// The open groups by key.
    pub groups: Map<K, GroupView>,
    /// What is ready to leave, in order.
    pub ready: Seq<ItemView>,
    /// How many groups were opened, give or take a wrap around.
    pub generation: u64,
    /// The input has ended.
    pub closed: bool,
    /// A group is flushed when it holds this many events.
    pub max_parts: nat,
    /// A group is flushed when it has been open this long, in nanoseconds.
    pub window: nat,
}

/// The stage's state between yielded items.
#[derive(Debug)]
pub struct Stage<K: MapKey> {
    groups: OrderedMap<K, Group>,
    ready: VecDeque<Item>,
    generation: u64,
    closed: bool,
    policy: WindowPolicy,
}

impl<K: MapKey> View for Stage<K> {
    type V = StageView<K::V>;

    closed spec fn view(&self) -> StageView<K::V> {
        StageView {
            groups: self.groups@,
            ready: item_views(self.ready@),
            generation: self.generation,
            closed: self.closed,
            max_parts: self.policy.max_parts@ as nat,
            window: self.policy.span@,
        }
    }
}

/// A group that is to be combined. Its view is the group's events in arrival
/// order.
pub struct CombineStep {
    parts: Vec<Event>,
}

impl View for CombineStep {
    type V = Seq<event::EventView>;

    closed spec fn view(&self) -> Seq<event::EventView> {
        ordered::views(self.parts@)
    }
}

/// A timer that is to be started for a group.
pub struct Timer<K> {
    /// The group's key.
    pub key: K,
    /// Which of the groups under that key it is.
    pub generation: u64,
    /// How long until it is due.
    pub span: Duration,
}

/// What admitting an event asks for.
pub struct Admission<K> {
    /// A timer to start, where a group was opened.
    pub timer: Option<Timer<K>>,
    /// A group to combine, where it is now full.
    pub flush: Option<CombineStep>,
}

/// What the stage does next.
pub enum StageStep {
    /// Yield this item.
    Yield(Item),
    /// Have this group combined.
    Combine(CombineStep),
    /// Wait for the next input event or the next due timer.
    Wait,
    /// Nothing is left.
    End,
}

/// The group that `event` joins under `key`, opened for it if needed.
pub open spec fn joined<K>(stage: StageView<K>, key: K, event: event::EventView) -> GroupView {
    if stage.groups.contains_key(key) {
        GroupView {
            parts: stage.groups[key].parts.push(event),
            generation: stage.groups[key].generation,
        }
    } else {
        GroupView { parts: seq![event], generation: next_generation(stage.generation) }
    }
}

/// The number of the next group to be opened.
pub open spec fn next_generation(generation: u64) -> u64 {
    if generation == u64::MAX {
        0
    } else {
        (generation + 1) as u64
    }
}

/// The stage after an event with the key `key` arrived: it is in its group,
/// which is gone again if it is now full.
pub open spec fn after_arrival<K>(
    stage: StageView<K>,
    key: K,
    event: event::EventView,
) -> StageView<K> {
    let group = joined(stage, key, event);
    StageView {
        groups: if group.parts.len() >= stage.max_parts {
            stage.groups.remove(key)
        } else {
            stage.groups.insert(key, group)
        },
        generation: if stage.groups.contains_key(key) {
            stage.generation
        } else {
            next_generation(stage.generation)
        },
        ..stage
    }
}

/// The stage after an event without a key arrived: it is ready to leave.
pub open spec fn after_passing<K>(stage: StageView<K>, event: event::EventView) -> StageView<K> {
    StageView { ready: stage.ready.push(Ok(event)), ..stage }
}

/// What admitting `event` asks for: a timer for a group that was opened, and
/// the combining of a group that is now full.
pub open spec fn admission_asks<K: MapKey>(
    admission: Admission<K>,
    stage: StageView<K::V>,
    key: K::V,
    event: event::EventView,
) -> bool {
    let group = joined(stage, key, event);
    &&& match admission.timer {
        Some(timer) => !stage.groups.contains_key(key) && timer.key@ == key && timer.generation
            == group.generation && timer.span@ == stage.window,
        None => stage.groups.contains_key(key),
    }
    &&& match admission.flush {
        Some(step) => group.parts.len() >= stage.max_parts && step@ == group.parts,
        None => group.parts.len() < stage.max_parts,
    }
}

/// The open group under `key` is the one a timer was started for.
pub open spec fn group_is<K>(stage: StageView<K>, key: K, generation: u64) -> bool {
    stage.groups.contains_key(key) && stage.groups[key].generation == generation
}

/// The item that a combined group becomes.
pub open spec fn combined_item(
    parts: Seq<event::EventView>,
    result: Result<event::EventView, CombineErrorView>,
) -> ItemView {
    match result {
        Ok(event) => Ok(event),
        Err(cause) => Err(MergeFailureView { parts, cause }),
    }
}

/// What a combiner returned, by its view.
pub open spec fn combine_view(result: Result<Event, CombineError>) -> Result<
    event::EventView,
    CombineErrorView,
> {
    match result {
        Ok(event) => Ok(event@),
        Err(error) => Err(error@),
    }
}

/// The stage after a timer was due: the group it was started for is gone.
pub open spec fn after_due<K>(stage: StageView<K>, key: K, generation: u64) -> StageView<K> {
    if group_is(stage, key, generation) {
        StageView { groups: stage.groups.remove(key), ..stage }
    } else {
        stage
    }
}

/// The stage after its input has ended.
pub open spec fn after_end<K>(stage: StageView<K>) -> StageView<K> {
    StageView { closed: true, ..stage }
}

/// The stage after the combiner was done with a group: what came of it is ready
/// to leave.
pub open spec fn after_combining<K>(
    stage: StageView<K>,
    parts: Seq<event::EventView>,
    result: Result<event::EventView, CombineErrorView>,
) -> StageView<K> {
    StageView { ready: stage.ready.push(combined_item(parts, result)), ..stage }
}

/// The open groups in key order.
pub open spec fn open_groups<K: MapKey>(stage: StageView<K::V>) -> Seq<(K::V, GroupView)> {
    ordered::sorted_entries::<K, GroupView>(stage.groups)
}

/// The stage after its next step: what is ready first has left; else, where the
/// input has ended, the first open group has.
pub open spec fn after_next<K: MapKey>(stage: StageView<K::V>) -> StageView<K::V> {
    if stage.ready.len() > 0 {
        StageView { ready: stage.ready.drop_first(), ..stage }
    } else if stage.closed && open_groups::<K>(stage).len() > 0 {
        StageView { groups: stage.groups.remove(open_groups::<K>(stage)[0].0), ..stage }
    } else {
        stage
    }
}

/// What the stage does next: yield what is ready; after the input has ended
/// flush the groups in key order; else wait.
pub open spec fn next_asks<K: MapKey>(step: StageStep, stage: StageView<K::V>) -> bool {
    if stage.ready.len() > 0 {
        step matches StageStep::Yield(item) && item_view(item) == stage.ready[0]
    } else if !stage.closed {
        step is Wait
    } else if open_groups::<K>(stage).len() > 0 {
        step matches StageStep::Combine(group) && group@ == open_groups::<K>(stage)[0].1.parts
    } else {
        step is End
    }
}

impl<K: MapKey + Replica> Stage<K> {
    /// A stage that holds nothing.
    pub fn new(policy: WindowPolicy) -> (stage: Stage<K>)
        ensures
            stage@ == fresh_stage::<K::V>(policy),
    {
        let stage: Stage<K> = Stage {
            groups: OrderedMap::new(),
            ready: VecDeque::new(),
            generation: 0,
            closed: false,
            policy,
        };
        assert(item_views(stage.ready@) =~= Seq::<ItemView>::empty());
        stage
    }

    /// How long a group stays open after its first event.
    pub fn window(&self) -> (span: Duration)
        ensures
            span@ == self@.window,
    {
        self.policy.span
    }

    /// What to do next.
    pub fn next_step(&mut self) -> (step: StageStep)
        ensures
            next_asks::<K>(step, old(self)@),
            final(self)@ == after_next::<K>(old(self)@),
    {
        let ghost before = self@;
        if let Some(item) = self.ready.pop_front() {
            assert(item_views(self.ready@) =~= before.ready.drop_first());
            return StageStep::Yield(item);
        }
        if !self.closed {
            return StageStep::Wait;
        }
        if self.groups.is_empty() {
            return StageStep::End;
        }
        let key = self.groups.entry(0).0.replica();
        match self.groups.remove(&key) {
            Some(group) => StageStep::Combine(CombineStep { parts: group.parts }),
            None => StageStep::End,
        }
    }

    /// The input has ended.
    pub fn input_ended(&mut self)
        ensures
            final(self)@ == after_end(old(self)@),
    {
        self.closed = true;
    }

    /// An event without a key arrived: it passes through untouched.
    pub fn pass(&mut self, event: Event)
        ensures
            final(self)@ == after_passing(old(self)@, event@),
    {
        let ghost before = self@;
        self.ready.push_back(Ok(event));
        assert(item_views(self.ready@) =~= before.ready.push(Ok(event@)));
    }

    /// An event arrived: places it in its group, opening one if needed, and
    /// flushes the group if it is now full.
    pub fn admit_event(&mut self, event: Event, key: K) -> (admission: Admission<K>)
        ensures
            final(self)@ == after_arrival(old(self)@, key@, event@),
            admission_asks(admission, old(self)@, key@, event@),
    {
        let ghost before = self@;
        let (group, timer) = match self.groups.remove(&key) {
            Some(group) => {
                let ghost held = ordered::views(group.parts@);
                let mut parts = group.parts;
                parts.push(event);
                assert(ordered::views(parts@) =~= held.push(event@));
                (Group { parts, generation: group.generation }, None)
            },
            None => {
                self.generation = if self.generation == u64::MAX {
                    0
                } else {
                    self.generation + 1
                };
                let mut parts: Vec<Event> = Vec::new();
                parts.push(event);
                assert(ordered::views(parts@) =~= seq![event@]);
                (
                    Group { parts, generation: self.generation },
                    Some(
                        Timer {
                            key: key.replica(),
                            generation: self.generation,
                            span: self.policy.span,
                        },
                    ),
                )
            },
        };
        if group.parts.len() >= self.policy.max_parts.get() {
            Admission { timer, flush: Some(CombineStep { parts: group.parts }) }
        } else {
            let ghost placed = group@;
            self.groups.insert(key, group);
            proof {
                assert(before.groups.remove(key@).insert(key@, placed) =~= before.groups.insert(
                    key@,
                    placed,
                ));
            }
            Admission { timer, flush: None }
        }
    }

    /// A timer is due: the group it was started for, if that is still open.
    pub fn due(&mut self, key: &K, generation: u64) -> (flush: Option<CombineStep>)
        ensures
            match flush {
                Some(step) => group_is(old(self)@, key@, generation) && step@
                    == old(self)@.groups[key@].parts,
                None => !group_is(old(self)@, key@, generation),
            },
            final(self)@ == after_due(old(self)@, key@, generation),
    {
        let matches_timer = match self.groups.get(key) {
            Some(group) => group.generation == generation,
            None => false,
        };
        if !matches_timer {
            return None;
        }
        match self.groups.remove(key) {
            Some(group) => Some(CombineStep { parts: group.parts }),
            None => None,
        }
    }

    /// A group was combined, or could not be: queues the event, or the failure
    /// with the group's events.
    pub fn combined(&mut self, step: CombineStep, result: Result<Event, CombineError>)
        ensures
            final(self)@ == after_combining(old(self)@, step@, combine_view(result)),
    {
        let ghost before = self@;
        let ghost queued = combined_item(step@, combine_view(result));
        let item: Item = match result {
            Ok(event) => Ok(event),
            Err(cause) => Err(MergeFailure { parts: step.parts, cause }),
        };
        self.ready.push_back(item);
        assert(item_views(self.ready@) =~= before.ready.push(queued));
    }
}

impl CombineStep {
    /// The group's events, in arrival order.
    pub fn parts(&self) -> (parts: &[Event])
        ensures
            ordered::views(parts@) == self@,
    {
        self.parts.as_slice()
    }
}

/// The events of the groups of `entries`.
pub open spec fn in_groups<K>(entries: Seq<(K, GroupView)>) -> Multiset<event::EventView>
    decreases entries.len(),
{
    if entries.len() == 0 {
        Multiset::empty()
    } else {
        in_groups(entries.drop_last()).add(entries.last().1.parts.to_multiset())
    }
}

/// The events in the open groups of a stage.
pub open spec fn held<K: MapKey>(stage: StageView<K::V>) -> Multiset<event::EventView> {
    in_groups(open_groups::<K>(stage))
}

/// What is true of every stage: its groups can be listed in key order, and each
/// holds some events, but too few to be flushed.
pub open spec fn stage_sound<K: MapKey>(stage: StageView<K::V>) -> bool {
    &&& stage.max_parts > 0
    &&& ordered::listable::<K, GroupView>(stage.groups)
    &&& forall|key: K::V| #[trigger]
        stage.groups.contains_key(key) ==> 0 < stage.groups[key].parts.len() < stage.max_parts
}

proof fn lemma_in_groups_remove<K>(entries: Seq<(K, GroupView)>, i: int)
    requires
        0 <= i < entries.len(),
    ensures
        in_groups(entries) == in_groups(entries.remove(i)).add(entries[i].1.parts.to_multiset()),
    decreases entries.len(),
{
    let rest = entries.drop_last();
    if i == entries.len() - 1 {
        assert(entries.remove(i) =~= rest);
    } else {
        lemma_in_groups_remove(rest, i);
        let without = entries.remove(i);
        assert(without.drop_last() =~= rest.remove(i));
        assert(without.last() == entries.last());
        assert(in_groups(entries) =~= in_groups(without).add(entries[i].1.parts.to_multiset()));
    }
}

proof fn lemma_held_without<K: MapKey>(groups: Map<K::V, GroupView>, key: K::V)
    requires
        ordered::listable::<K, GroupView>(groups),
        groups.contains_key(key),
    ensures
        ordered::listable::<K, GroupView>(groups.remove(key)),
        in_groups(ordered::sorted_entries::<K, GroupView>(groups)) == in_groups(
            ordered::sorted_entries::<K, GroupView>(groups.remove(key)),
        ).add(groups[key].parts.to_multiset()),
{
    let listed = ordered::sorted_entries::<K, GroupView>(groups);
    let i = choose|i: int| ordered::holds_at(listed, key, i);
    ordered::lemma_position_unique::<K, GroupView>(listed, i);
    ordered::lemma_remove::<K, GroupView>(listed, i);
    ordered::lemma_sorted_entries::<K, GroupView>(listed.remove(i));
    lemma_in_groups_remove(listed, i);
}

/// A stage that holds nothing.
pub open spec fn fresh_stage<K>(policy: WindowPolicy) -> StageView<K> {
    StageView {
        groups: Map::empty(),
        ready: Seq::empty(),
        generation: 0,
        closed: false,
        max_parts: policy.max_parts@ as nat,
        window: policy.span@,
    }
}

proof fn lemma_fresh_sound<K: MapKey>(policy: WindowPolicy)
    requires
        policy.max_parts@ > 0,
    ensures
        stage_sound::<K>(fresh_stage(policy)),
        held::<K>(fresh_stage(policy)) == Multiset::<event::EventView>::empty(),
{
    ordered::lemma_collected_listable::<K, GroupView>(Seq::empty());
    let none = Seq::<(K::V, GroupView)>::empty();
    assert(ordered::dictionary(none) =~= Map::empty());
    ordered::lemma_sorted_entries::<K, GroupView>(none);
}

proof fn lemma_without_group_sound<K: MapKey>(stage: StageView<K::V>, key: K::V)
    requires
        stage_sound::<K>(stage),
    ensures
        stage_sound::<K>((StageView { groups: stage.groups.remove(key), ..stage })),
{
    if stage.groups.contains_key(key) {
        lemma_held_without::<K>(stage.groups, key);
    } else {
        assert(stage.groups.remove(key) =~= stage.groups);
    }
}

proof fn lemma_arrival_sound<K: MapKey>(
    stage: StageView<K::V>,
    key: K::V,
    event: event::EventView,
)
    requires
        stage_sound::<K>(stage),
    ensures
        stage_sound::<K>(after_arrival(stage, key, event)),
{
    let group = joined(stage, key, event);
    ordered::lemma_insert_listable::<K, GroupView>(stage.groups, (key, group));
    lemma_without_group_sound::<K>(stage, key);
}

proof fn lemma_arrival_keeps<K: MapKey>(
    stage: StageView<K::V>,
    key: K::V,
    event: event::EventView,
)
    requires
        stage_sound::<K>(stage),
    ensures
        held::<K>(stage).insert(event) == held::<K>(after_arrival(stage, key, event)).add(
            if joined(stage, key, event).parts.len() >= stage.max_parts {
                joined(stage, key, event).parts.to_multiset()
            } else {
                Multiset::empty()
            },
        ),
{
    let group = joined(stage, key, event);
    let after = after_arrival(stage, key, event);
    let with = stage.groups.insert(key, group);
    ordered::lemma_insert_listable::<K, GroupView>(stage.groups, (key, group));
    lemma_held_without::<K>(with, key);
    assert(with.remove(key) =~= stage.groups.remove(key));
    if stage.groups.contains_key(key) {
        lemma_held_without::<K>(stage.groups, key);
        let before = stage.groups[key].parts;
        before.to_multiset_ensures();
        assert(group.parts.to_multiset() =~= before.to_multiset().insert(event));
    } else {
        assert(stage.groups.remove(key) =~= stage.groups);
        Seq::<event::EventView>::empty().to_multiset_ensures();
        assert(group.parts =~= Seq::<event::EventView>::empty().push(event));
        assert(Seq::<event::EventView>::empty().to_multiset() =~= Multiset::empty());
        assert(group.parts.to_multiset() =~= Multiset::empty().insert(event));
    }
    assert(held::<K>(stage).insert(event) =~= held::<K>(after).add(
        if group.parts.len() >= stage.max_parts {
            group.parts.to_multiset()
        } else {
            Multiset::empty()
        },
    ));
}

/// One thing that happens to a stage.
pub enum StageMove<K> {
    /// An event without a key arrives.
    Passes(event::EventView),
    /// An event with a key arrives.
    Arrives { key: K, event: event::EventView },
    /// A timer is due.
    Due { key: K, generation: u64 },
    /// The input ends.
    Ends,
    /// The stage takes its next step.
    Steps,
    /// The combiner is done with the `i`-th group that it was given and still has.
    Combines { i: int, result: Result<event::EventView, CombineErrorView> },
}

/// Where an item that is ready to leave came from.
pub enum Origin {
    /// An event that passed through.
    Passed(event::EventView),
    /// A group, and what the combiner made of it.
    Group { parts: Seq<event::EventView>, result: Result<event::EventView, CombineErrorView> },
}

/// The item that leaves.
pub open spec fn origin_item(origin: Origin) -> ItemView {
    match origin {
        Origin::Passed(event) => Ok(event),
        Origin::Group { parts, result } => combined_item(parts, result),
    }
}

/// The events that went into the item.
pub open spec fn origin_events(origin: Origin) -> Multiset<event::EventView> {
    match origin {
        Origin::Passed(event) => Multiset::empty().insert(event),
        Origin::Group { parts, .. } => parts.to_multiset(),
    }
}

/// A stage, with what has gone through it.
#[verifier::ext_equal]
#[verifier::reject_recursive_types(K)]
pub struct StageRun<K> {
    /// The stage.
    pub stage: StageView<K>,
    /// The events that arrived, each with its key, in order.
    pub arrivals: Seq<(Option<K>, event::EventView)>,
    /// The groups that were opened, in order: the key of each, and the event that
    /// opened it.
    pub openings: Seq<(K, event::EventView)>,
    /// The groups that the combiner has.
    pub combining: Seq<Seq<event::EventView>>,
    /// Where each item that became ready came from, in order.
    pub queued: Seq<Origin>,
    /// The items that have left, in order.
    pub left: Seq<ItemView>,
}

/// A run that has not begun.
pub open spec fn fresh_run<K>(policy: WindowPolicy) -> StageRun<K> {
    StageRun {
        stage: fresh_stage(policy),
        arrivals: Seq::empty(),
        openings: Seq::empty(),
        combining: Seq::empty(),
        queued: Seq::empty(),
        left: Seq::empty(),
    }
}

/// The run after one more move.
pub open spec fn moved<K: MapKey>(run: StageRun<K::V>, m: StageMove<K::V>) -> StageRun<K::V> {
    let stage = run.stage;
    match m {
        StageMove::Passes(event) => StageRun {
            stage: after_passing(stage, event),
            arrivals: run.arrivals.push((None, event)),
            queued: run.queued.push(Origin::Passed(event)),
            ..run
        },
        StageMove::Arrives { key, event } => {
            let group = joined(stage, key, event);
            StageRun {
                stage: after_arrival(stage, key, event),
                arrivals: run.arrivals.push((Some(key), event)),
                openings: if stage.groups.contains_key(key) {
                    run.openings
                } else {
                    run.openings.push((key, event))
                },
                combining: if group.parts.len() >= stage.max_parts {
                    run.combining.push(group.parts)
                } else {
                    run.combining
                },
                ..run
            }
        },
        StageMove::Due { key, generation } => StageRun {
            stage: after_due(stage, key, generation),
            combining: if group_is(stage, key, generation) {
                run.combining.push(stage.groups[key].parts)
            } else {
                run.combining
            },
            ..run
        },
        StageMove::Ends => StageRun { stage: after_end(stage), ..run },
        StageMove::Steps => if stage.ready.len() > 0 {
            StageRun {
                stage: after_next::<K>(stage),
                left: run.left.push(stage.ready[0]),
                ..run
            }
        } else if stage.closed && open_groups::<K>(stage).len() > 0 {
            StageRun {
                stage: after_next::<K>(stage),
                combining: run.combining.push(open_groups::<K>(stage)[0].1.parts),
                ..run
            }
        } else {
            run
        },
        StageMove::Combines { i, result } => if 0 <= i < run.combining.len() {
            let parts = run.combining[i];
            StageRun {
                stage: after_combining(stage, parts, result),
                combining: run.combining.remove(i),
                queued: run.queued.push(Origin::Group { parts, result }),
                ..run
            }
        } else {
            run
        },
    }
}

/// The run of a stage after `moves`.
pub open spec fn after_moves<K: MapKey>(policy: WindowPolicy, moves: Seq<StageMove<K::V>>) -> StageRun<
    K::V,
>
    decreases moves.len(),
{
    if moves.len() == 0 {
        fresh_run(policy)
    } else {
        moved::<K>(after_moves::<K>(policy, moves.drop_last()), moves.last())
    }
}

/// The events that arrived.
pub open spec fn arrived<K>(arrivals: Seq<(Option<K>, event::EventView)>) -> Multiset<
    event::EventView,
>
    decreases arrivals.len(),
{
    if arrivals.len() == 0 {
        Multiset::empty()
    } else {
        arrived(arrivals.drop_last()).insert(arrivals.last().1)
    }
}

/// The events that arrived without a key, in order.
pub open spec fn keyless<K>(arrivals: Seq<(Option<K>, event::EventView)>) -> Seq<event::EventView>
    decreases arrivals.len(),
{
    if arrivals.len() == 0 {
        Seq::empty()
    } else if arrivals.last().0 is None {
        keyless(arrivals.drop_last()).push(arrivals.last().1)
    } else {
        keyless(arrivals.drop_last())
    }
}

/// The events of some groups.
pub open spec fn united(groups: Seq<Seq<event::EventView>>) -> Multiset<event::EventView>
    decreases groups.len(),
{
    if groups.len() == 0 {
        Multiset::empty()
    } else {
        united(groups.drop_last()).add(groups.last().to_multiset())
    }
}

/// The events that went into some items.
pub open spec fn spent(queued: Seq<Origin>) -> Multiset<event::EventView>
    decreases queued.len(),
{
    if queued.len() == 0 {
        Multiset::empty()
    } else {
        spent(queued.drop_last()).add(origin_events(queued.last()))
    }
}

/// The events that passed through, in order.
pub open spec fn passes(queued: Seq<Origin>) -> Seq<event::EventView>
    decreases queued.len(),
{
    if queued.len() == 0 {
        Seq::empty()
    } else {
        match queued.last() {
            Origin::Passed(event) => passes(queued.drop_last()).push(event),
            Origin::Group { .. } => passes(queued.drop_last()),
        }
    }
}

/// The items that became ready, in order.
pub open spec fn items(queued: Seq<Origin>) -> Seq<ItemView> {
    Seq::new(queued.len(), |i: int| origin_item(queued[i]))
}

/// Every event that arrived is in an open group, with the combiner, or in an
/// item; the items leave in the order in which they became ready; and events
/// without a key became ready in the order in which they arrived.
pub open spec fn accounted<K: MapKey>(run: StageRun<K::V>) -> bool {
    &&& arrived(run.arrivals) == held::<K>(run.stage).add(united(run.combining)).add(
        spent(run.queued),
    )
    &&& run.left + run.stage.ready == items(run.queued)
    &&& keyless(run.arrivals) == passes(run.queued)
}

proof fn lemma_united_remove(groups: Seq<Seq<event::EventView>>, i: int)
    requires
        0 <= i < groups.len(),
    ensures
        united(groups) == united(groups.remove(i)).add(groups[i].to_multiset()),
    decreases groups.len(),
{
    let rest = groups.drop_last();
    if i == groups.len() - 1 {
        assert(groups.remove(i) =~= rest);
    } else {
        lemma_united_remove(rest, i);
        let without = groups.remove(i);
        assert(without.drop_last() =~= rest.remove(i));
        assert(without.last() == groups.last());
        assert(united(groups) =~= united(without).add(groups[i].to_multiset()));
    }
}

proof fn lemma_united_push(groups: Seq<Seq<event::EventView>>, parts: Seq<event::EventView>)
    ensures
        united(groups.push(parts)) == united(groups).add(parts.to_multiset()),
{
    assert(groups.push(parts).drop_last() =~= groups);
}

proof fn lemma_queued_push(queued: Seq<Origin>, origin: Origin)
    ensures
        spent(queued.push(origin)) == spent(queued).add(origin_events(origin)),
        items(queued.push(origin)) == items(queued).push(origin_item(origin)),
        passes(queued.push(origin)) == match origin {
            Origin::Passed(event) => passes(queued).push(event),
            Origin::Group { .. } => passes(queued),
        },
{
    assert(queued.push(origin).drop_last() =~= queued);
    assert(items(queued.push(origin)) =~= items(queued).push(origin_item(origin)));
}

proof fn lemma_first_group<K: MapKey>(stage: StageView<K::V>)
    requires
        stage_sound::<K>(stage),
        open_groups::<K>(stage).len() > 0,
    ensures
        stage.groups.contains_key(open_groups::<K>(stage)[0].0),
        stage.groups[open_groups::<K>(stage)[0].0] == open_groups::<K>(stage)[0].1,
{
    ordered::lemma_position_unique::<K, GroupView>(open_groups::<K>(stage), 0);
}

proof fn lemma_moved<K: MapKey>(run: StageRun<K::V>, m: StageMove<K::V>)
    requires
        stage_sound::<K>(run.stage),
        accounted::<K>(run),
    ensures
        stage_sound::<K>(moved::<K>(run, m).stage),
        accounted::<K>(moved::<K>(run, m)),
{
    let stage = run.stage;
    let after = moved::<K>(run, m);
    match m {
        StageMove::Passes(event) => {
            lemma_queued_push(run.queued, Origin::Passed(event));
            assert(after.arrivals.drop_last() =~= run.arrivals);
            assert(after.left + after.stage.ready =~= (run.left + stage.ready).push(Ok(event)));
            assert(arrived(after.arrivals) =~= held::<K>(after.stage).add(
                united(after.combining),
            ).add(spent(after.queued)));
        },
        StageMove::Arrives { key, event } => {
            lemma_arrival_sound::<K>(stage, key, event);
            lemma_arrival_keeps::<K>(stage, key, event);
            lemma_united_push(run.combining, joined(stage, key, event).parts);
            assert(after.arrivals.drop_last() =~= run.arrivals);
            assert(arrived(after.arrivals) =~= held::<K>(stage).insert(event).add(
                united(run.combining),
            ).add(spent(run.queued)));
            assert(arrived(after.arrivals) =~= held::<K>(after.stage).add(
                united(after.combining),
            ).add(spent(after.queued)));
        },
        StageMove::Due { key, generation } => {
            if group_is(stage, key, generation) {
                lemma_without_group_sound::<K>(stage, key);
                lemma_held_without::<K>(stage.groups, key);
                lemma_united_push(run.combining, stage.groups[key].parts);
                assert(arrived(after.arrivals) =~= held::<K>(after.stage).add(
                    united(after.combining),
                ).add(spent(after.queued)));
            }
        },
        StageMove::Ends => {},
        StageMove::Steps => {
            if stage.ready.len() > 0 {
                assert(after.left + after.stage.ready =~= run.left + stage.ready);
            } else if stage.closed && open_groups::<K>(stage).len() > 0 {
                let key = open_groups::<K>(stage)[0].0;
                lemma_first_group::<K>(stage);
                lemma_without_group_sound::<K>(stage, key);
                lemma_held_without::<K>(stage.groups, key);
                lemma_united_push(run.combining, stage.groups[key].parts);
                assert(arrived(after.arrivals) =~= held::<K>(after.stage).add(
                    united(after.combining),
                ).add(spent(after.queued)));
            }
        },
        StageMove::Combines { i, result } => {
            if 0 <= i < run.combining.len() {
                let parts = run.combining[i];
                lemma_united_remove(run.combining, i);
                lemma_queued_push(run.queued, Origin::Group { parts, result });
                assert(after.left + after.stage.ready =~= (run.left + stage.ready).push(
                    combined_item(parts, result),
                ));
                assert(arrived(after.arrivals) =~= held::<K>(after.stage).add(
                    united(after.combining),
                ).add(spent(after.queued)));
            }
        },
    }
}

proof fn lemma_after_moves<K: MapKey>(policy: WindowPolicy, moves: Seq<StageMove<K::V>>)
    requires
        policy.max_parts@ > 0,
    ensures
        stage_sound::<K>(after_moves::<K>(policy, moves).stage),
        accounted::<K>(after_moves::<K>(policy, moves)),
    decreases moves.len(),
{
    if moves.len() == 0 {
        let run = fresh_run::<K::V>(policy);
        lemma_fresh_sound::<K>(policy);
        assert(run.left + run.stage.ready =~= items(run.queued));
        assert(arrived(run.arrivals) =~= held::<K>(run.stage).add(united(run.combining)).add(
            spent(run.queued),
        ));
    } else {
        lemma_after_moves::<K>(policy, moves.drop_last());
        lemma_moved::<K>(after_moves::<K>(policy, moves.drop_last()), moves.last());
    }
}

/// Law: whatever happens to a stage, its groups can be listed in key order, and
/// each open group holds some events, but too few to be flushed; how many are
/// enough, and how long a group stays open, stay what the policy says.
pub proof fn law_stage_stays_sound<K: MapKey>(policy: WindowPolicy, moves: Seq<StageMove<K::V>>)
    requires
        policy.max_parts@ > 0,
    ensures
        stage_sound::<K>(after_moves::<K>(policy, moves).stage),
        after_moves::<K>(policy, moves).stage.max_parts == policy.max_parts@,
        after_moves::<K>(policy, moves).stage.window == policy.span@,
{
    lemma_after_moves::<K>(policy, moves);
    lemma_bound_stays::<K>(policy, moves);
}

proof fn lemma_bound_stays<K: MapKey>(policy: WindowPolicy, moves: Seq<StageMove<K::V>>)
    ensures
        after_moves::<K>(policy, moves).stage.max_parts == policy.max_parts@,
        after_moves::<K>(policy, moves).stage.window == policy.span@,
    decreases moves.len(),
{
    if moves.len() > 0 {
        lemma_bound_stays::<K>(policy, moves.drop_last());
    }
}

/// Law: the combiner is never given an empty group, nor one that holds more
/// events than the policy allows; that bound never changes.
pub proof fn law_groups_are_neither_empty_nor_too_large<K: MapKey>(
    policy: WindowPolicy,
    moves: Seq<StageMove<K::V>>,
    i: int,
)
    requires
        policy.max_parts@ > 0,
        0 <= i < after_moves::<K>(policy, moves).combining.len(),
    ensures
        0 < after_moves::<K>(policy, moves).combining[i].len()
            <= policy.max_parts@,
        after_moves::<K>(policy, moves).stage.max_parts == policy.max_parts@,
    decreases moves.len(),
{
    lemma_bound_stays::<K>(policy, moves);
    if moves.len() > 0 {
        let run = after_moves::<K>(policy, moves.drop_last());
        lemma_bound_stays::<K>(policy, moves.drop_last());
        lemma_after_moves::<K>(policy, moves.drop_last());
        if run.stage.closed && open_groups::<K>(run.stage).len() > 0 {
            lemma_first_group::<K>(run.stage);
        }
        let from = match moves.last() {
            StageMove::Combines { i: done, .. } => if 0 <= done <= i && done
                < run.combining.len() {
                i + 1
            } else {
                i
            },
            _ => i,
        };
        if from < run.combining.len() {
            law_groups_are_neither_empty_nor_too_large::<K>(policy, moves.drop_last(), from);
        }
    }
}

/// Law: no event is lost. Whatever happens to a stage, every event that arrived
/// is in an open group, with the combiner, or in an item: itself, its group's
/// combined event, or its group's failure. Items leave in the order in which
/// they became ready, and events without a key in the order in which they
/// arrived. When nothing is left in the stage or with the combiner, every event
/// has gone into an item and every item has left.
pub proof fn law_no_event_is_lost<K: MapKey>(policy: WindowPolicy, moves: Seq<StageMove<K::V>>)
    requires
        policy.max_parts@ > 0,
    ensures
        ({
            let run = after_moves::<K>(policy, moves);
            &&& accounted::<K>(run)
            &&& run.stage.ready.len() == 0 && open_groups::<K>(run.stage).len() == 0
                && run.combining.len() == 0 ==> arrived(run.arrivals) == spent(run.queued)
                && run.left == items(run.queued)
        }),
{
    lemma_after_moves::<K>(policy, moves);
    let run = after_moves::<K>(policy, moves);
    if run.stage.ready.len() == 0 && open_groups::<K>(run.stage).len() == 0
        && run.combining.len() == 0 {
        assert(run.left + run.stage.ready =~= run.left);
        assert(held::<K>(run.stage).add(united(run.combining)).add(spent(run.queued)) =~= spent(
            run.queued,
        ));
    }
}

/// The events that arrived under `key`, in order.
pub open spec fn under<K>(arrivals: Seq<(Option<K>, event::EventView)>, key: K) -> Seq<
    event::EventView,
>
    decreases arrivals.len(),
{
    if arrivals.len() == 0 {
        Seq::empty()
    } else if arrivals.last().0 == Some(key) {
        under(arrivals.drop_last(), key).push(arrivals.last().1)
    } else {
        under(arrivals.drop_last(), key)
    }
}

/// `parts` are the events that arrived under `key` from the `from`-th one on, in
/// order and without a gap.
pub open spec fn arrived_from<K>(
    arrivals: Seq<(Option<K>, event::EventView)>,
    key: K,
    from: int,
    parts: Seq<event::EventView>,
) -> bool {
    &&& 0 <= from
    &&& from + parts.len() <= under(arrivals, key).len()
    &&& parts == under(arrivals, key).subrange(from, from + parts.len())
}

/// `parts` arrived under one key, in this order and without a gap.
pub open spec fn arrived_together<K>(
    arrivals: Seq<(Option<K>, event::EventView)>,
    parts: Seq<event::EventView>,
) -> bool {
    exists|key: K, from: int| arrived_from(arrivals, key, from, parts)
}

/// Every open group holds the last events that arrived under its key; every
/// group that the combiner has or had arrived together.
pub open spec fn in_arrival_order<K>(run: StageRun<K>) -> bool {
    &&& forall|key: K| #[trigger]
        run.stage.groups.contains_key(key) ==> {
            let parts = run.stage.groups[key].parts;
            arrived_from(
                run.arrivals,
                key,
                under(run.arrivals, key).len() - parts.len(),
                parts,
            )
        }
    &&& forall|i: int|
        0 <= i < run.combining.len() ==> arrived_together(
            run.arrivals,
            #[trigger] run.combining[i],
        )
    &&& forall|i: int|
        0 <= i < run.queued.len() ==> (#[trigger] run.queued[i] matches Origin::Group {
            parts,
            ..
        } ==> arrived_together(run.arrivals, parts))
}

proof fn lemma_under_push<K>(
    arrivals: Seq<(Option<K>, event::EventView)>,
    arrival: (Option<K>, event::EventView),
    key: K,
)
    ensures
        under(arrivals.push(arrival), key) == if arrival.0 == Some(key) {
            under(arrivals, key).push(arrival.1)
        } else {
            under(arrivals, key)
        },
{
    assert(arrivals.push(arrival).drop_last() =~= arrivals);
}

proof fn lemma_together_later<K>(
    arrivals: Seq<(Option<K>, event::EventView)>,
    arrival: (Option<K>, event::EventView),
    parts: Seq<event::EventView>,
)
    requires
        arrived_together(arrivals, parts),
    ensures
        arrived_together(arrivals.push(arrival), parts),
{
    let (key, from) = choose|key: K, from: int| arrived_from(arrivals, key, from, parts);
    lemma_under_push(arrivals, arrival, key);
    assert(under(arrivals.push(arrival), key).subrange(from, from + parts.len()) =~= parts);
    assert(arrived_from(arrivals.push(arrival), key, from, parts));
}

proof fn lemma_arrival_in_order<K>(
    run: StageRun<K>,
    arrival: (Option<K>, event::EventView),
    after: StageRun<K>,
)
    requires
        in_arrival_order(run),
        after.arrivals == run.arrivals.push(arrival),
        after.combining == run.combining,
        after.queued == run.queued,
    ensures
        forall|i: int|
            0 <= i < after.combining.len() ==> arrived_together(
                after.arrivals,
                #[trigger] after.combining[i],
            ),
        forall|i: int|
            0 <= i < after.queued.len() ==> (#[trigger] after.queued[i] matches Origin::Group {
                parts,
                ..
            } ==> arrived_together(after.arrivals, parts)),
{
    assert forall|i: int| 0 <= i < after.combining.len() implies arrived_together(
        after.arrivals,
        #[trigger] after.combining[i],
    ) by {
        lemma_together_later(run.arrivals, arrival, run.combining[i]);
    }
    assert forall|i: int| 0 <= i < after.queued.len() implies (
    #[trigger] after.queued[i] matches Origin::Group { parts, .. } ==> arrived_together(
        after.arrivals,
        parts,
    )) by {
        if let Origin::Group { parts, .. } = run.queued[i] {
            lemma_together_later(run.arrivals, arrival, parts);
        }
    }
}

proof fn lemma_moved_in_order<K: MapKey>(run: StageRun<K::V>, m: StageMove<K::V>)
    requires
        stage_sound::<K>(run.stage),
        in_arrival_order(run),
    ensures
        in_arrival_order(moved::<K>(run, m)),
{
    let stage = run.stage;
    let after = moved::<K>(run, m);
    match m {
        StageMove::Passes(event) => {
            let arrival = (None::<K::V>, event);
            lemma_arrival_in_order(run, arrival, StageRun { queued: run.queued, ..after });
            assert forall|key: K::V| #[trigger] after.stage.groups.contains_key(key) implies ({
                let parts = after.stage.groups[key].parts;
                arrived_from(
                    after.arrivals,
                    key,
                    under(after.arrivals, key).len() - parts.len(),
                    parts,
                )
            }) by {
                assert(stage.groups.contains_key(key));
                lemma_under_push(run.arrivals, arrival, key);
            }
        },
        StageMove::Arrives { key: own, event } => {
            let arrival = (Some(own), event);
            let group = joined(stage, own, event);
            let settled = StageRun { combining: run.combining, ..after };
            lemma_arrival_in_order(run, arrival, settled);
            lemma_under_push(run.arrivals, arrival, own);
            let whole = under(after.arrivals, own);
            let from = whole.len() - group.parts.len();
            if stage.groups.contains_key(own) {
                let before = stage.groups[own].parts;
                let earlier = under(run.arrivals, own);
                assert(before == earlier.subrange(from, from + before.len()));
                assert(group.parts =~= whole.subrange(from, from + group.parts.len()));
            } else {
                assert(group.parts =~= whole.subrange(from, from + group.parts.len()));
            }
            assert(arrived_from(after.arrivals, own, from, group.parts));
            assert(arrived_together(after.arrivals, group.parts));
            assert forall|i: int| 0 <= i < after.combining.len() implies arrived_together(
                after.arrivals,
                #[trigger] after.combining[i],
            ) by {
                if i < run.combining.len() {
                    assert(after.combining[i] == settled.combining[i]);
                }
            }
            assert forall|key: K::V| #[trigger] after.stage.groups.contains_key(key) implies ({
                let parts = after.stage.groups[key].parts;
                arrived_from(
                    after.arrivals,
                    key,
                    under(after.arrivals, key).len() - parts.len(),
                    parts,
                )
            }) by {
                if key != own {
                    assert(stage.groups.contains_key(key));
                    lemma_under_push(run.arrivals, arrival, key);
                }
            }
        },
        StageMove::Due { key, generation } => {
            if group_is(stage, key, generation) {
                let parts = stage.groups[key].parts;
                assert(arrived_from(
                    run.arrivals,
                    key,
                    under(run.arrivals, key).len() - parts.len(),
                    parts,
                ));
            }
        },
        StageMove::Ends => {},
        StageMove::Steps => {
            if stage.ready.len() == 0 && stage.closed && open_groups::<K>(stage).len() > 0 {
                lemma_first_group::<K>(stage);
                let key = open_groups::<K>(stage)[0].0;
                let parts = stage.groups[key].parts;
                assert(arrived_from(
                    run.arrivals,
                    key,
                    under(run.arrivals, key).len() - parts.len(),
                    parts,
                ));
            }
        },
        StageMove::Combines { i, result } => {
            if 0 <= i < run.combining.len() {
                assert(arrived_together(run.arrivals, run.combining[i]));
                assert forall|j: int| 0 <= j < after.combining.len() implies arrived_together(
                    after.arrivals,
                    #[trigger] after.combining[j],
                ) by {
                    let was = if j < i {
                        j
                    } else {
                        j + 1
                    };
                    assert(after.combining[j] == run.combining[was]);
                }
            }
        },
    }
}

/// Law: arrival order is kept. An open group holds the last events that arrived
/// under its key, and a group that is handed to the combiner holds events that
/// arrived under one key, in arrival order and without a gap.
pub proof fn law_groups_keep_arrival_order<K: MapKey>(
    policy: WindowPolicy,
    moves: Seq<StageMove<K::V>>,
)
    requires
        policy.max_parts@ > 0,
    ensures
        in_arrival_order(after_moves::<K>(policy, moves)),
    decreases moves.len(),
{
    if moves.len() > 0 {
        law_groups_keep_arrival_order::<K>(policy, moves.drop_last());
        lemma_after_moves::<K>(policy, moves.drop_last());
        lemma_moved_in_order::<K>(after_moves::<K>(policy, moves.drop_last()), moves.last());
    }
}

/// Law: a group that could not be combined leaves as a failure that holds its
/// events in arrival order.
pub proof fn law_rejected_groups_leave_intact(
    parts: Seq<event::EventView>,
    cause: CombineErrorView,
)
    ensures
        origin_item(Origin::Group { parts, result: Err(cause) }) == Err::<event::EventView, _>(
            MergeFailureView { parts, cause },
        ),
{
}

/// Law: a combined group carries its lineage: concatenation lists the parts in
/// arrival order.
pub proof fn law_concatenation_keeps_lineage(parts: Seq<event::EventView>)
    requires
        parts.len() > 0,
    ensures
        concatenated(parts).parts == part_ids(parts),
        concatenated(parts).parts.len() == parts.len(),
{
}

/// The generation that the `n`-th group to be opened, counted from zero, is given.
pub open spec fn generation_of(n: int) -> u64 {
    ((n + 1) % 0x1_0000_0000_0000_0000) as u64
}

/// Which of the groups opened so far was the last to be opened under `key`; -1
/// where none was.
pub open spec fn last_opening<K>(openings: Seq<(K, event::EventView)>, key: K) -> int
    decreases openings.len(),
{
    if openings.len() == 0 {
        -1
    } else if openings.last().0 == key {
        openings.len() - 1
    } else {
        last_opening(openings.drop_last(), key)
    }
}

/// The open group under `key` is the last that was opened there: it has the
/// generation that it was given then, and begins with the event that opened it.
pub open spec fn is_last_opened<K>(run: StageRun<K>, key: K) -> bool {
    let n = last_opening(run.openings, key);
    let group = run.stage.groups[key];
    &&& 0 <= n < run.openings.len()
    &&& run.openings[n].0 == key
    &&& group.generation == generation_of(n)
    &&& group.parts.len() > 0
    &&& group.parts[0] == run.openings[n].1
}

proof fn lemma_openings_numbered<K: MapKey>(policy: WindowPolicy, moves: Seq<StageMove<K::V>>)
    requires
        policy.max_parts@ > 0,
    ensures
        ({
            let run = after_moves::<K>(policy, moves);
            &&& next_generation(run.stage.generation) == generation_of(run.openings.len() as int)
            &&& forall|key: K::V| #[trigger]
                run.stage.groups.contains_key(key) ==> is_last_opened(run, key)
        }),
    decreases moves.len(),
{
    if moves.len() > 0 {
        let run = after_moves::<K>(policy, moves.drop_last());
        let after = after_moves::<K>(policy, moves);
        lemma_openings_numbered::<K>(policy, moves.drop_last());
        assert forall|key: K::V| #[trigger]
            after.stage.groups.contains_key(key) implies is_last_opened(after, key) by {
            assert(run.stage.groups.contains_key(key) ==> is_last_opened(run, key));
            if after.openings.len() > run.openings.len() {
                assert(after.openings.drop_last() =~= run.openings);
            }
        }
    }
}

/// Law: a stale timer does not flush a newer group with the same key. Take the
/// timer that was started for the `n`-th group, which carries that group's key
/// and generation. Whatever happened since, while no more than 2^64 groups have
/// been opened the timer flushes the group that it was started for, with the
/// event that opened it at its head, or nothing. Where another group was opened
/// under the key later, the due timer changes nothing.
pub proof fn law_stale_timers_flush_nothing<K: MapKey>(
    policy: WindowPolicy,
    moves: Seq<StageMove<K::V>>,
    n: int,
)
    requires
        policy.max_parts@ > 0,
        0 <= n < after_moves::<K>(policy, moves).openings.len() <= 0x1_0000_0000_0000_0000,
    ensures
        ({
            let run = after_moves::<K>(policy, moves);
            let (key, opener) = run.openings[n];
            let due = StageMove::Due { key, generation: generation_of(n) };
            &&& group_is(run.stage, key, generation_of(n)) ==> last_opening(run.openings, key) == n
                && run.stage.groups[key].parts.len() > 0 && run.stage.groups[key].parts[0] == opener
            &&& last_opening(run.openings, key) != n ==> moved::<K>(run, due) == run
        }),
{
    lemma_openings_numbered::<K>(policy, moves);
    let run = after_moves::<K>(policy, moves);
    let key = run.openings[n].0;
    if group_is(run.stage, key, generation_of(n)) {
        assert(is_last_opened(run, key));
    } else {
        assert(after_due(run.stage, key, generation_of(n)) =~= run.stage);
    }
}

/// Law: a timer carries the generation of the group that it is started for: an
/// event that opens a group, after whatever happened, gives the group the
/// generation of its place among the groups opened.
pub proof fn law_timers_carry_the_opening<K: MapKey>(
    policy: WindowPolicy,
    moves: Seq<StageMove<K::V>>,
    key: K::V,
    event: event::EventView,
)
    requires
        policy.max_parts@ > 0,
        !after_moves::<K>(policy, moves).stage.groups.contains_key(key),
    ensures
        ({
            let before = after_moves::<K>(policy, moves);
            let after = after_moves::<K>(policy, moves.push(StageMove::Arrives { key, event }));
            let n = before.openings.len() as int;
            &&& joined(before.stage, key, event).generation == generation_of(n)
            &&& after.openings == before.openings.push((key, event))
        }),
{
    lemma_openings_numbered::<K>(policy, moves);
    assert(moves.push(StageMove::Arrives { key, event }).drop_last() =~= moves);
}

/// Law: a concatenation carries the text of every part. One part gives its own
/// payload; one more part adds a newline and its payload at the end, however
/// many there were.
pub proof fn law_concatenation_carries_every_payload(
    parts: Seq<event::EventView>,
    added: event::EventView,
)
    ensures
        parts.len() == 0 ==> concatenated(parts.push(added)).payload == added.payload,
        parts.len() > 0 ==> concatenated(parts.push(added)).payload == concatenated(parts).payload
            + "\n"@ + added.payload,
{
    let grown = parts.push(added);
    assert(grown.drop_last() =~= parts);
    assert(grown.last() == added);
}

/// How many characters the parts have together.
pub open spec fn payload_lengths(parts: Seq<event::EventView>) -> nat {
    parts.fold_left(0nat, |sum: nat, part: event::EventView| sum + part.payload.len())
}

/// Law: nothing of a part is lost in a concatenation, and nothing but the
/// newlines between neighbours is added. Each part's payload stands in it whole,
/// after those of the parts before it, and it is as long as they are together,
/// with one newline less than there are parts.
pub proof fn law_concatenation_adds_only_newlines(parts: Seq<event::EventView>, i: int)
    requires
        0 <= i < parts.len(),
    ensures
        concatenated(parts).payload.len() == payload_lengths(parts) + parts.len() - 1,
        ({
            let start = payload_lengths(parts.take(i)) + i;
            let end = start + parts[i].payload.len();
            &&& 0 <= start <= end <= concatenated(parts).payload.len()
            &&& concatenated(parts).payload.subrange(start as int, end as int) == parts[i].payload
            &&& i > 0 ==> concatenated(parts).payload[start - 1] == '\n'
        }),
    decreases parts.len(),
{
    reveal_strlit("\n");
    let rest = parts.drop_last();
    assert(payload_lengths(parts) == payload_lengths(rest) + parts.last().payload.len()) by {
        reveal_with_fuel(Seq::fold_left, 2);
    }
    if parts.len() == 1 {
        assert(rest =~= Seq::empty());
        assert(parts.take(0) =~= Seq::empty());
        assert(payload_lengths(rest) == 0) by {
            reveal_with_fuel(Seq::fold_left, 2);
        }
        assert(concatenated(parts).payload.subrange(0, parts[0].payload.len() as int)
            =~= parts[0].payload);
    } else {
        let whole = concatenated(parts).payload;
        let before = concatenated(rest).payload;
        law_concatenation_adds_only_newlines(rest, 0);
        assert(whole == before + "\n"@ + parts.last().payload);
        if i < rest.len() {
            law_concatenation_adds_only_newlines(rest, i);
            assert(rest.take(i) =~= parts.take(i));
            let start = payload_lengths(parts.take(i)) + i;
            let end = start + parts[i].payload.len();
            assert(whole.subrange(start as int, end as int) =~= before.subrange(
                start as int,
                end as int,
            ));
        } else {
            assert(parts.take(i) =~= rest);
            let start = payload_lengths(rest) + i;
            assert(whole.subrange(start as int, start + parts[i].payload.len())
                =~= parts[i].payload);
        }
    }
}

/// Law: a concatenation is named after its first part and how many parts there
/// are, and lists the parts' identities in order.
pub proof fn law_concatenation_is_named_after_its_parts(parts: Seq<event::EventView>)
    requires
        parts.len() > 0,
    ensures
        concatenated(parts).id == parts[0].id + "+"@ + text::decimal(parts.len()),
        concatenated(parts).parts.len() == parts.len(),
        forall|i: int|
            0 <= i < parts.len() ==> #[trigger] concatenated(parts).parts[i] == parts[i].id,
{
}

/// Law: an arrival touches its own group only. A group stays open until it holds
/// as many events as the policy allows, with the new event at its end; the event
/// that fills it takes the whole group out, to be combined. Only an event that
/// opens a group starts a timer, and that runs for the window.
pub proof fn law_a_group_fills_up_and_is_flushed_whole<K: MapKey>(
    stage: StageView<K::V>,
    key: K::V,
    event: event::EventView,
    admission: Admission<K>,
    other: K::V,
)
    requires
        admission_asks(admission, stage, key, event),
    ensures
        ({
            let after = after_arrival(stage, key, event);
            let opens = !stage.groups.contains_key(key);
            let before = if opens {
                Seq::empty()
            } else {
                stage.groups[key].parts
            };
            let full = before.len() + 1 >= stage.max_parts;
            &&& full ==> !after.groups.contains_key(key) && (admission.flush matches Some(step)
                && step@ == before.push(event))
            &&& !full ==> after.groups.contains_key(key) && after.groups[key].parts
                == before.push(event) && admission.flush is None
            &&& !full && !opens ==> after.groups[key].generation == stage.groups[key].generation
            &&& admission.timer is Some <==> opens
            &&& admission.timer matches Some(timer) ==> timer.key@ == key && timer.span@
                == stage.window && (!full ==> timer.generation == after.groups[key].generation)
            &&& other != key ==> after.groups.contains_key(other) == stage.groups.contains_key(
                other,
            ) && after.groups[other] == stage.groups[other]
            &&& after.ready == stage.ready
            &&& after.closed == stage.closed
            &&& after.max_parts == stage.max_parts
            &&& after.window == stage.window
        }),
{
    assert(seq![event] =~= Seq::empty().push(event));
}

/// Law: a due timer takes out the group it was started for, and nothing else;
/// where that group is gone it changes nothing.
pub proof fn law_a_due_timer_takes_out_its_group<K>(
    stage: StageView<K>,
    key: K,
    generation: u64,
    other: K,
)
    ensures
        group_is(stage, key, generation) <==> stage.groups.contains_key(key)
            && stage.groups[key].generation == generation,
        group_is(stage, key, generation) ==> !after_due(
            stage,
            key,
            generation,
        ).groups.contains_key(key),
        !group_is(stage, key, generation) ==> after_due(stage, key, generation) == stage,
        other != key ==> after_due(stage, key, generation).groups.contains_key(other)
            == stage.groups.contains_key(other) && after_due(stage, key, generation).groups[other]
            == stage.groups[other],
        after_due(stage, key, generation).ready == stage.ready,
        after_due(stage, key, generation).closed == stage.closed,
        after_due(stage, key, generation).generation == stage.generation,
{
}

/// Law: what leaves the stage leaves in order. What is ready goes first, the
/// oldest item before the others. With nothing ready the stage waits for its
/// input; once that has ended it hands over the open groups, the one with the
/// least key first, and ends when none is left.
pub proof fn law_what_leaves_leaves_in_order<K: MapKey>(stage: StageView<K::V>, step: StageStep)
    requires
        stage_sound::<K>(stage),
        next_asks::<K>(step, stage),
    ensures
        ({
            let after = after_next::<K>(stage);
            &&& step is Yield <==> stage.ready.len() > 0
            &&& step matches StageStep::Yield(item) ==> seq![item_view(item)] + after.ready
                == stage.ready && after.groups == stage.groups
            &&& step is Wait <==> stage.ready.len() == 0 && !stage.closed
            &&& step is End <==> stage.ready.len() == 0 && stage.closed && stage.groups == Map::<
                K::V,
                GroupView,
            >::empty()
            &&& step is Wait || step is End ==> after == stage
            &&& step matches StageStep::Combine(group) ==> exists|key: K::V|
                {
                    &&& #[trigger] stage.groups.contains_key(key)
                    &&& group@ == stage.groups[key].parts
                    &&& after.groups == stage.groups.remove(key)
                    &&& after.ready == stage.ready
                    &&& forall|other: K::V| #[trigger]
                        stage.groups.contains_key(other) && other != key ==> K::before(key, other)
                }
        }),
{
    let listed = open_groups::<K>(stage);
    ordered::law_listing_is_ascending_and_complete::<K, GroupView>(stage.groups);
    if stage.ready.len() > 0 {
        assert(seq![stage.ready[0]] + stage.ready.drop_first() =~= stage.ready);
    } else if stage.closed {
        if listed.len() > 0 {
            let key = listed[0].0;
            assert(stage.groups.contains_key(key));
            assert forall|other: K::V| #[trigger]
                stage.groups.contains_key(other) && other != key implies K::before(key, other) by {
                let i = choose|i: int| 0 <= i < listed.len() && (#[trigger] listed[i]).0 == other;
                assert(K::before(listed[0].0, listed[i].0));
            }
        } else {
            assert forall|key: K::V| !(#[trigger] stage.groups.contains_key(key)) by {}
            assert(stage.groups =~= Map::<K::V, GroupView>::empty());
        }
    }
}

/// Law: an event without a key, and a group that was combined or could not be,
/// are ready to leave after what was ready before them, and touch no group.
pub proof fn law_what_becomes_ready_queues_up<K>(
    stage: StageView<K>,
    event: event::EventView,
    parts: Seq<event::EventView>,
    result: Result<Event, CombineError>,
)
    ensures
        after_passing(stage, event).ready == stage.ready.push(Ok(event)),
        after_passing(stage, event).groups == stage.groups,
        after_passing(stage, event).closed == stage.closed,
        after_passing(stage, event).generation == stage.generation,
        ({
            let after = after_combining(stage, parts, combine_view(result));
            &&& after.ready == stage.ready.push(
                match result {
                    Ok(merged) => Ok(merged@),
                    Err(cause) => Err(MergeFailureView { parts, cause: cause@ }),
                },
            )
            &&& after.groups == stage.groups
            &&& after.closed == stage.closed
            &&& after.generation == stage.generation
        }),
        after_end(stage).closed,
        after_end(stage).groups == stage.groups,
        after_end(stage).ready == stage.ready,
        after_end(stage).generation == stage.generation,
{
}

/// Law: a combine error says in words what it is and why.
pub proof fn law_combine_errors_end_with_their_reason(reason: Seq<char>)
    ensures
        combine_error_text(CombineErrorView::Empty) == "nothing to combine"@,
        combine_error_text(CombineErrorView::Rejected { reason })
            == "combiner rejected the group: "@ + reason,
{
}

/// Law: a stage begins empty and open, with the policy's bounds; what is ready
/// is listed item by item.
pub proof fn law_a_stage_begins_empty<K>(policy: WindowPolicy, items: Seq<Item>, i: int)
    ensures
        fresh_stage::<K>(policy).groups == Map::<K, GroupView>::empty(),
        fresh_stage::<K>(policy).ready.len() == 0,
        !fresh_stage::<K>(policy).closed,
        fresh_stage::<K>(policy).max_parts == policy.max_parts@,
        fresh_stage::<K>(policy).window == policy.span@,
        item_views(items).len() == items.len(),
        0 <= i < items.len() ==> item_views(items)[i] == match items[i] {
            Ok(event) => Ok(event@),
            Err(failure) => Err(failure@),
        },
{
}

} // verus!

//! The scheduler of a build: which work to launch, what to do with each
//! result, and when the build has succeeded or failed.
//!
//! The scheduler performs no work itself. A driver launches every command at
//! once, reports each result as an event, and carries out the directive that
//! the scheduler answers with.

use url::Url;
use vstd::prelude::*;

use crate::paths::{destination, destination_of};
use crate::planner::{DeferredBytes, PlannedArtifact};
use crate::targets::Targets;

verus! {

/// Why the production of an artifact failed.
#[derive(Clone, Copy, PartialEq, Eq, Structural, Debug)]
pub enum FailureKind {
    /// A renderer asked for the reference of a path that no artifact declares.
    TargetNotFound,
    /// The remote content could not be retrieved.
    Fetch,
    /// The caller's renderer reported an error of its own.
    Render,
    /// The file could not be written.
    Write,
}

/// How far the work on one artifact has come.
#[derive(Clone, Copy, PartialEq, Eq, Structural, Debug)]
pub enum Stage {
    /// The bytes are being fetched.
    Fetching,
    /// The bytes are being rendered.
    Rendering,
    /// The bytes are at hand and their file is being written.
    Writing,
    /// The file is written.
    Written,
}

/// Whether the bytes of an artifact at `stage` are still being produced.
pub open spec fn is_producing(stage: Stage) -> bool {
    stage == Stage::Fetching || stage == Stage::Rendering
}

/// Whether work at `stage` can fail with `kind`.
pub open spec fn can_fail_with(stage: Stage, kind: FailureKind) -> bool {
    match kind {
        FailureKind::Fetch => stage == Stage::Fetching,
        FailureKind::Render => stage == Stage::Rendering,
        FailureKind::TargetNotFound => stage == Stage::Rendering,
        FailureKind::Write => stage == Stage::Writing,
    }
}

/// What a `BuildError` stands for.
pub ghost struct Failure {
    pub path: Seq<char>,
    pub kind: FailureKind,
    pub detail: Seq<char>,
}

/// The failure of a build: the artifact whose production failed, the kind of
/// failure, and its detail (the missing path for `TargetNotFound`, else the
/// text of the error that the driver reported).
#[derive(Debug)]
pub struct BuildError {
    pub path: String,
    pub kind: FailureKind,
    pub detail: String,
}

impl View for BuildError {
    type V = Failure;

    open spec fn view(&self) -> Failure {
        Failure { path: self.path@, kind: self.kind, detail: self.detail@ }
    }
}

/// What a `WriteOrder` stands for.
pub ghost struct WriteOrderView {
    pub index: int,
    pub destination: Seq<char>,
    pub bytes: Seq<u8>,
}

/// The order to write the bytes of the artifact at `index` to `destination`.
#[derive(Debug)]
pub struct WriteOrder {
    pub index: usize,
    pub destination: String,
    pub bytes: Vec<u8>,
}

impl View for WriteOrder {
    type V = WriteOrderView;

    open spec fn view(&self) -> WriteOrderView {
        WriteOrderView {
            index: self.index as int,
            destination: self.destination@,
            bytes: self.bytes@,
        }
    }
}

/// The work that the driver launches for one planned artifact.
pub enum Command<R> {
    /// Fetch the bytes of the artifact at `index` from `url`.
    Fetch { index: usize, url: Url },
    /// Run `renderer` on `targets` for the bytes of the artifact at `index`.
    Render { index: usize, renderer: R, targets: Targets },
    /// The bytes are at hand: write them.
    Write(WriteOrder),
}

/// What an `Event` stands for.
pub ghost enum EventView {
    Produced { index: int, bytes: Seq<u8> },
    Failed { index: int, kind: FailureKind, detail: Seq<char> },
    Written { index: int },
}

impl EventView {
    /// The artifact that the event is about.
    pub open spec fn index(self) -> int {
        match self {
            EventView::Produced { index, .. } => index,
            EventView::Failed { index, .. } => index,
            EventView::Written { index } => index,
        }
    }
}

/// What the driver reports back to the scheduler.
#[derive(Debug)]
pub enum Event {
    /// The source of the artifact at `index` produced `bytes`.
    Produced { index: usize, bytes: Vec<u8> },
    /// The work on the artifact at `index` failed.
    Failed { index: usize, kind: FailureKind, detail: String },
    /// The file of the artifact at `index` is written.
    Written { index: usize },
}

impl View for Event {
    type V = EventView;

    open spec fn view(&self) -> EventView {
        match self {
            Event::Produced { index, bytes } => EventView::Produced {
                index: *index as int,
                bytes: bytes@,
            },
            Event::Failed { index, kind, detail } => EventView::Failed {
                index: *index as int,
                kind: *kind,
                detail: detail@,
            },
            Event::Written { index } => EventView::Written { index: *index as int },
        }
    }
}

/// What a `Directive` stands for.
pub ghost enum DirectiveView {
    Write(WriteOrderView),
    Continue,
    Finish,
    Abort(Failure),
    Ignore,
}

/// What the scheduler tells the driver to do after an event.
#[derive(Debug)]
pub enum Directive {
    /// Write these bytes.
    Write(WriteOrder),
    /// Nothing to do: other work is still under way.
    Continue,
    /// Every file is written: the build has succeeded.
    Finish,
    /// The build has failed: stop it and report the error.
    Abort(BuildError),
    /// The event does not fit the state of the build and changed nothing.
    Ignore,
}

impl View for Directive {
    type V = DirectiveView;

    open spec fn view(&self) -> DirectiveView {
        match self {
            Directive::Write(order) => DirectiveView::Write(order@),
            Directive::Continue => DirectiveView::Continue,
            Directive::Finish => DirectiveView::Finish,
            Directive::Abort(error) => DirectiveView::Abort(error@),
            Directive::Ignore => DirectiveView::Ignore,
        }
    }
}

/// What a `Scheduler` stands for: the output root, the planned paths, the
/// stage of the work on each, and the failure of the build if it has failed.
pub ghost struct SchedulerView {
    pub root: Seq<char>,
    pub paths: Seq<Seq<char>>,
    pub stages: Seq<Stage>,
    pub failure: Option<Failure>,
}

impl SchedulerView {
    /// Every planned path has a stage.
    pub open spec fn well_formed(self) -> bool {
        self.stages.len() == self.paths.len()
    }

    /// Whether every file is written.
    pub open spec fn all_written(self) -> bool {
        forall|i: int| 0 <= i < self.stages.len() ==> self.stages[i] == Stage::Written
    }

    /// The result of the build: none while work is under way, the failure
    /// once any work has failed, success once every file is written.
    pub open spec fn outcome(self) -> Option<Result<(), Failure>> {
        match self.failure {
            Some(failure) => Some(Err(failure)),
            None => if self.all_written() {
                Some(Ok(()))
            } else {
                None
            },
        }
    }

    /// Whether `event` fits the state: the build has not failed, the event is
    /// about a planned artifact, and the work on that artifact is at a stage
    /// that can end this way.
    pub open spec fn accepts(self, event: EventView) -> bool {
        &&& self.failure is None
        &&& 0 <= event.index() < self.stages.len()
        &&& match event {
            EventView::Produced { index, .. } => is_producing(self.stages[index]),
            EventView::Failed { index, kind, .. } => can_fail_with(self.stages[index], kind),
            EventView::Written { index } => self.stages[index] == Stage::Writing,
        }
    }

    /// The order to write `bytes` as the file of the artifact at `index`.
    pub open spec fn write_order(self, index: int, bytes: Seq<u8>) -> WriteOrderView {
        WriteOrderView { index, destination: destination_of(self.root, self.paths[index]), bytes }
    }

    /// The state with the work on the artifact at `index` moved to `stage`.
    pub open spec fn at_stage(self, index: int, stage: Stage) -> SchedulerView {
        SchedulerView { stages: self.stages.update(index, stage), ..self }
    }

    /// The state after `event`.
    pub open spec fn after(self, event: EventView) -> SchedulerView {
        if !self.accepts(event) {
            self
        } else {
            match event {
                EventView::Produced { index, .. } => self.at_stage(index, Stage::Writing),
                EventView::Failed { index, kind, detail } => SchedulerView {
                    failure: Some(Failure { path: self.paths[index], kind, detail }),
                    ..self
                },
                EventView::Written { index } => self.at_stage(index, Stage::Written),
            }
        }
    }

    /// The directive that answers `event`.
    pub open spec fn directive(self, event: EventView) -> DirectiveView {
        if !self.accepts(event) {
            DirectiveView::Ignore
        } else {
            match event {
                EventView::Produced { index, bytes } => DirectiveView::Write(
                    self.write_order(index, bytes),
                ),
                EventView::Failed { index, kind, detail } => DirectiveView::Abort(
                    Failure { path: self.paths[index], kind, detail },
                ),
                EventView::Written { index } => if self.after(event).all_written() {
                    DirectiveView::Finish
                } else {
                    DirectiveView::Continue
                },
            }
        }
    }

    /// The state after all of `events`, taken in one after the other.
    pub open spec fn after_all(self, events: Seq<EventView>) -> SchedulerView
        decreases events.len(),
    {
        if events.len() == 0 {
            self
        } else {
            self.after_all(events.drop_last()).after(events.last())
        }
    }

    /// The directive that answers the event at `position` of `events`.
    pub open spec fn directive_at(self, events: Seq<EventView>, position: int) -> DirectiveView {
        self.after_all(events.take(position)).directive(events[position])
    }

    /// The write orders given for the artifact at `index` in answer to
    /// `events`, in the order in which they were given.
    pub open spec fn writes_ordered(self, events: Seq<EventView>, index: int) -> Seq<
        WriteOrderView,
    >
        decreases events.len(),
    {
        if events.len() == 0 {
            Seq::empty()
        } else {
            let before = self.writes_ordered(events.drop_last(), index);
            match self.after_all(events.drop_last()).directive(events.last()) {
                DirectiveView::Write(order) => if order.index == index {
                    before.push(order)
                } else {
                    before
                },
                _ => before,
            }
        }
    }
}

/// The stage at which the work on a planned artifact starts.
pub open spec fn first_stage<R>(bytes: DeferredBytes<R>) -> Stage {
    match bytes {
        DeferredBytes::Ready(_) => Stage::Writing,
        DeferredBytes::Fetch(_) => Stage::Fetching,
        DeferredBytes::Render(_, _) => Stage::Rendering,
    }
}

/// The state in which the build of `planned` under `root` starts.
pub open spec fn initial_state<R>(root: Seq<char>, planned: Seq<PlannedArtifact<R>>)
    -> SchedulerView {
    SchedulerView {
        root,
        paths: Seq::new(planned.len(), |k: int| planned[k].path@),
        stages: Seq::new(planned.len(), |k: int| first_stage(planned[k].bytes)),
        failure: None,
    }
}

/// Whether `command` launches the work on the planned artifact `entry`, the
/// one at `index`, under `root`.
pub open spec fn launches<R>(
    root: Seq<char>,
    index: int,
    entry: PlannedArtifact<R>,
    command: Command<R>,
) -> bool {
    match entry.bytes {
        DeferredBytes::Ready(content) => {
            &&& command matches Command::Write(order)
            &&& order@ == WriteOrderView {
                index,
                destination: destination_of(root, entry.path@),
                bytes: content@,
            }
        },
        DeferredBytes::Fetch(url) => {
            &&& command matches Command::Fetch { index: at, url: from }
            &&& at == index
            &&& from == url
        },
        DeferredBytes::Render(renderer, targets) => {
            &&& command matches Command::Render { index: at, renderer: with, targets: over }
            &&& at == index
            &&& with == renderer
            &&& over == targets
        },
    }
}

/// The work on one planned artifact.
#[derive(Debug)]
struct Unit {
    path: String,
    stage: Stage,
}

/// The state of one build.
#[derive(Debug)]
pub struct Scheduler {
    root: String,
    units: Vec<Unit>,
    failure: Option<BuildError>,
}

impl View for Scheduler {
    type V = SchedulerView;

    closed spec fn view(&self) -> SchedulerView {
        SchedulerView {
            root: self.root@,
            paths: Seq::new(self.units.len() as nat, |k: int| self.units[k].path@),
            stages: Seq::new(self.units.len() as nat, |k: int| self.units[k].stage),
            failure: match self.failure {
                Some(error) => Some(error@),
                None => None,
            },
        }
    }
}

/// Whether `state` and `commands` start the build of `planned` under `root`:
/// the state is the initial one, and there is one command for every planned
/// artifact, in the order of the plan.
pub open spec fn is_start_of<R>(
    root: Seq<char>,
    planned: Seq<PlannedArtifact<R>>,
    state: SchedulerView,
    commands: Seq<Command<R>>,
) -> bool {
    &&& state == initial_state(root, planned)
    &&& commands.len() == planned.len()
    &&& forall|k: int|
        0 <= k < planned.len() ==> launches(root, k, planned[k], #[trigger] commands[k])
}

/// A copy of an error.
fn copy_error(error: &BuildError) -> (copy: BuildError)
    ensures
        copy@ == error@,
{
    BuildError { path: error.path.clone(), kind: error.kind, detail: error.detail.clone() }
}

impl Scheduler {
    /// Starts the build of `planned` under the output root `output_root`.
    ///
    /// Returns the state of the build and one command for every planned
    /// artifact. The driver launches all of them at once.
    pub fn start<R>(output_root: String, planned: Vec<PlannedArtifact<R>>) -> (started: (
        Scheduler,
        Vec<Command<R>>,
    ))
        ensures
            is_start_of(output_root@, planned@, started.0@, started.1@),
            started.0@.well_formed(),
    {
        let ghost plan = planned@;
        let mut units: Vec<Unit> = Vec::new();
        let mut commands: Vec<Command<R>> = Vec::new();
        for entry in it: planned
            invariant
                it.seq() == plan,
                units.len() == it.index(),
                commands.len() == it.index(),
                forall|k: int|
                    0 <= k < units.len() ==> {
                        &&& (#[trigger] units@[k]).path@ == plan[k].path@
                        &&& units@[k].stage == first_stage(plan[k].bytes)
                    },
                forall|k: int|
                    0 <= k < commands.len() ==> launches(
                        output_root@,
                        k,
                        plan[k],
                        #[trigger] commands@[k],
                    ),
        {
            let index = units.len();
            let PlannedArtifact { path, bytes } = entry;
            let (stage, command) = match bytes {
                DeferredBytes::Ready(content) => (
                    Stage::Writing,
                    Command::Write(
                        WriteOrder {
                            index,
                            destination: destination(output_root.as_str(), path.as_str()),
                            bytes: content,
                        },
                    ),
                ),
                DeferredBytes::Fetch(url) => (Stage::Fetching, Command::Fetch { index, url }),
                DeferredBytes::Render(renderer, targets) => (
                    Stage::Rendering,
                    Command::Render { index, renderer, targets },
                ),
            };
            units.push(Unit { path, stage });
            commands.push(command);
        }
        let scheduler = Scheduler { root: output_root, units, failure: None };
        assert(scheduler@.paths =~= initial_state(output_root@, plan).paths);
        assert(scheduler@.stages =~= initial_state(output_root@, plan).stages);
        (scheduler, commands)
    }

    /// The number of planned artifacts.
    pub fn len(&self) -> (len: usize)
        ensures
            len == self@.paths.len(),
            self@.well_formed(),
    {
        self.units.len()
    }

    /// The path of the planned artifact at `index`.
    pub fn path(&self, index: usize) -> (path: Option<&str>)
        ensures
            match path {
                Some(path) => index < self@.paths.len() && path@ == self@.paths[index as int],
                None => index >= self@.paths.len(),
            },
    {
        if index < self.units.len() {
            Some(self.units[index].path.as_str())
        } else {
            None
        }
    }

    /// The stage of the work on the planned artifact at `index`.
    pub fn stage(&self, index: usize) -> (stage: Option<Stage>)
        ensures
            match stage {
                Some(stage) => index < self@.stages.len() && stage == self@.stages[index as int],
                None => index >= self@.stages.len(),
            },
    {
        if index < self.units.len() {
            Some(self.units[index].stage)
        } else {
            None
        }
    }

    /// Whether every file is written.
    fn settled(&self) -> (settled: bool)
        ensures
            settled == self@.all_written(),
    {
        let mut i: usize = 0;
        while i < self.units.len()
            invariant
                i <= self.units.len(),
                forall|j: int| 0 <= j < i ==> self.units@[j].stage == Stage::Written,
            decreases self.units.len() - i,
        {
            if self.units[i].stage != Stage::Written {
                assert(self@.stages[i as int] != Stage::Written);
                return false;
            }
            i += 1;
        }
        true
    }

    /// The result of the build: none while work is under way, the error once
    /// any work has failed, success once every file is written.
    pub fn outcome(&self) -> (outcome: Option<Result<(), BuildError>>)
        ensures
            match outcome {
                Some(Ok(_)) => self@.outcome() == Some(Ok::<(), Failure>(())),
                Some(Err(error)) => self@.outcome() == Some(Err::<(), Failure>(error@)),
                None => self@.outcome() is None,
            },
    {
        match &self.failure {
            Some(error) => Some(Err(copy_error(error))),
            None => if self.settled() {
                Some(Ok(()))
            } else {
                None
            },
        }
    }

    /// Takes in one event and answers with what the driver is to do.
    ///
    /// An event that does not fit the state changes nothing and is answered
    /// with `Ignore`; so is every event after the build has failed.
    pub fn step(&mut self, event: Event) -> (directive: Directive)
        ensures
            final(self)@ == old(self)@.after(event@),
            directive@ == old(self)@.directive(event@),
            final(self)@.well_formed(),
    {
        if self.failure.is_some() {
            return Directive::Ignore;
        }
        match event {
            Event::Produced { index, bytes } => {
                if index < self.units.len() && (self.units[index].stage == Stage::Fetching
                    || self.units[index].stage == Stage::Rendering) {
                    self.units[index].stage = Stage::Writing;
                    let place = destination(self.root.as_str(), self.units[index].path.as_str());
                    assert(self@.paths =~= old(self)@.paths);
                    assert(self@.stages =~= old(self)@.stages.update(index as int, Stage::Writing));
                    Directive::Write(WriteOrder { index, destination: place, bytes })
                } else {
                    Directive::Ignore
                }
            },
            Event::Failed { index, kind, detail } => {
                if index < self.units.len() && Self::stage_can_fail_with(
                    self.units[index].stage,
                    kind,
                ) {
                    let error = BuildError { path: self.units[index].path.clone(), kind, detail };
                    self.failure = Some(copy_error(&error));
                    Directive::Abort(error)
                } else {
                    Directive::Ignore
                }
            },
            Event::Written { index } => {
                if index < self.units.len() && self.units[index].stage == Stage::Writing {
                    self.units[index].stage = Stage::Written;
                    assert(self@.paths =~= old(self)@.paths);
                    assert(self@.stages =~= old(self)@.stages.update(index as int, Stage::Written));
                    if self.settled() {
                        Directive::Finish
                    } else {
                        Directive::Continue
                    }
                } else {
                    Directive::Ignore
                }
            },
        }
    }

    /// Tells whether work at `stage` can fail with `kind`.
    fn stage_can_fail_with(stage: Stage, kind: FailureKind) -> (fits: bool)
        ensures
            fits == can_fail_with(stage, kind),
    {
        match kind {
            FailureKind::Fetch => stage == Stage::Fetching,
            FailureKind::Render => stage == Stage::Rendering,
            FailureKind::TargetNotFound => stage == Stage::Rendering,
            FailureKind::Write => stage == Stage::Writing,
        }
    }
}

/// Events change neither the output root nor the planned paths, and a
/// well-formed state stays well-formed.
pub proof fn lemma_events_keep_the_plan(state: SchedulerView, events: Seq<EventView>)
    requires
        state.well_formed(),
    ensures
        state.after_all(events).well_formed(),
        state.after_all(events).root == state.root,
        state.after_all(events).paths == state.paths,
    decreases events.len(),
{
    if events.len() > 0 {
        lemma_events_keep_the_plan(state, events.drop_last());
    }
}

/// A failed build stays failed: no later event changes the state, every
/// later event is ignored, and the result is the first failure, never
/// success.
pub proof fn lemma_failure_is_final(state: SchedulerView, events: Seq<EventView>)
    requires
        state.failure is Some,
    ensures
        state.after_all(events) == state,
        state.after_all(events).outcome() == Some(Err::<(), Failure>(state.failure->0)),
        forall|position: int|
            0 <= position < events.len() ==> #[trigger] state.directive_at(events, position)
                == DirectiveView::Ignore,
    decreases events.len(),
{
    if events.len() > 0 {
        lemma_failure_is_final(state, events.drop_last());
        assert forall|position: int| 0 <= position < events.len() implies #[trigger]
            state.directive_at(events, position) == DirectiveView::Ignore by {
            lemma_failure_is_final(state, events.take(position));
        }
    }
}

/// Taking in events one after the other is the same as taking in a first
/// part and then the rest.
pub proof fn lemma_events_in_two_parts(
    state: SchedulerView,
    events: Seq<EventView>,
    position: int,
)
    requires
        0 <= position <= events.len(),
    ensures
        state.after_all(events) == state.after_all(events.take(position)).after_all(
            events.skip(position),
        ),
    decreases events.len() - position,
{
    let rest = events.skip(position);
    if position == events.len() {
        assert(events.take(position) =~= events);
    } else {
        lemma_events_in_two_parts(state, events.drop_last(), position);
        assert(events.drop_last().take(position) =~= events.take(position));
        assert(events.drop_last().skip(position) =~= rest.drop_last());
        assert(rest.last() == events.last());
    }
}

/// Fail-fast: once the work on one artifact has failed, the build as a whole
/// has failed, whatever else happens and in whatever order: its result is an
/// error, never success. The error is the first failure that was reported:
/// it names the artifact that failed, the kind of failure and its detail.
pub proof fn lemma_failed_work_fails_the_build(
    state: SchedulerView,
    events: Seq<EventView>,
    position: int,
)
    requires
        0 <= position < events.len(),
        events[position] is Failed,
        0 <= events[position].index() < state.after_all(events.take(position)).stages.len(),
        can_fail_with(
            state.after_all(events.take(position)).stages[events[position].index()],
            events[position]->Failed_kind,
        ),
    ensures
        ({
            let before = state.after_all(events.take(position));
            let reported = Failure {
                path: before.paths[events[position].index()],
                kind: events[position]->Failed_kind,
                detail: events[position]->Failed_detail,
            };
            let first = if before.failure is Some {
                before.failure->0
            } else {
                reported
            };
            &&& state.after_all(events).outcome() == Some(Err::<(), Failure>(first))
            &&& before.failure is None ==> state.directive_at(events, position)
                == DirectiveView::Abort(reported)
        }),
{
    let before = state.after_all(events.take(position));
    let failed = before.after(events[position]);
    lemma_events_in_two_parts(state, events, position + 1);
    assert(events.take(position + 1).drop_last() =~= events.take(position));
    assert(state.after_all(events.take(position + 1)) == failed);
    lemma_failure_is_final(failed, events.skip(position + 1));
}

/// Every artifact is written at most once, to its own place, with exactly
/// the bytes that its source produced.
///
/// For the artifact at `index`: where its bytes were at hand from the start,
/// no event leads to a write order (the launch command is its only one).
/// Where they were still to be produced, no write is ordered while they are,
/// and exactly one once they have been: for the artifact's destination, and
/// with the very bytes that a `Produced` event reported.
pub proof fn lemma_each_file_is_ordered_once(
    state: SchedulerView,
    events: Seq<EventView>,
    index: int,
)
    requires
        state.well_formed(),
        0 <= index < state.paths.len(),
    ensures
        ({
            let end = state.after_all(events);
            let writes = state.writes_ordered(events, index);
            &&& !is_producing(state.stages[index]) ==> writes.len() == 0 && !is_producing(
                end.stages[index],
            )
            &&& is_producing(end.stages[index]) ==> writes.len() == 0 && end.stages[index]
                == state.stages[index]
            &&& is_producing(state.stages[index]) && !is_producing(end.stages[index]) ==> {
                &&& writes.len() == 1
                &&& writes[0].index == index
                &&& writes[0].destination == destination_of(state.root, state.paths[index])
                &&& exists|position: int|
                    0 <= position < events.len() && #[trigger] events[position]
                        == (EventView::Produced { index, bytes: writes[0].bytes })
            }
        }),
    decreases events.len(),
{
    if events.len() > 0 {
        let earlier = events.drop_last();
        let before = state.after_all(earlier);
        let end = state.after_all(events);
        let writes = state.writes_ordered(events, index);
        lemma_each_file_is_ordered_once(state, earlier, index);
        lemma_events_keep_the_plan(state, earlier);
        if is_producing(state.stages[index]) && !is_producing(end.stages[index]) {
            if is_producing(before.stages[index]) {
                assert(events[events.len() - 1] == (EventView::Produced {
                    index,
                    bytes: writes[0].bytes,
                }));
            } else {
                let position = choose|position: int|
                    0 <= position < earlier.len() && #[trigger] earlier[position] == (
                    EventView::Produced { index, bytes: writes[0].bytes });
                assert(events[position] == earlier[position]);
            }
        }
    }
}

/// A build that ends in success has taken every planned artifact through
/// to its written file.
pub proof fn lemma_success_means_all_written(state: SchedulerView, events: Seq<EventView>)
    requires
        state.well_formed(),
        state.after_all(events).outcome() == Some(Ok::<(), Failure>(())),
    ensures
        state.after_all(events).failure is None,
        forall|index: int|
            0 <= index < state.paths.len() ==> #[trigger] state.after_all(events).stages[index]
                == Stage::Written,
{
    lemma_events_keep_the_plan(state, events);
}

} // verus!

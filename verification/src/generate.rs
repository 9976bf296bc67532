//! The entry point of a build: from the declared artifacts to a started
//! scheduler, and what a finished build is known to have done.

use vstd::prelude::*;

use crate::artifact::{ContentSource, OutputArtifact};
use crate::paths::{destination_of, lemma_destinations_differ};
use crate::planner::{
    declared_paths, is_plan_of, lemma_plan_holds_every_path_once,
    lemma_unique_declarations_are_all_planned, plan, planned_paths, survivors, DeferredBytes,
    PlannedArtifact,
};
use crate::scheduler::{
    initial_state, is_start_of, lemma_each_file_is_ordered_once, lemma_success_means_all_written,
    Command, EventView, Failure, Scheduler, Stage, WriteOrderView,
};

verus! {

/// Plans the build of `artifacts` under the output root `output_root` and
/// starts it.
///
/// Returns the state of the build and one command for every planned
/// artifact; the caller launches the commands and drives the build to its
/// end. Declarations that repeat a path are dropped in silence: nothing is
/// refused.
pub fn generate<R>(output_root: String, artifacts: Vec<OutputArtifact<R>>) -> (build: (
    Scheduler,
    Vec<Command<R>>,
))
    ensures
        exists|planned: Seq<PlannedArtifact<R>>|
            is_plan_of(artifacts@, planned) && #[trigger] is_start_of(
                output_root@,
                planned,
                build.0@,
                build.1@,
            ),
        build.0@.well_formed(),
{
    let planned = plan(artifacts);
    let ghost entries = planned@;
    let build = Scheduler::start(output_root, planned);
    assert(is_start_of(output_root@, entries, build.0@, build.1@));
    build
}

/// No two artifacts of a plan are written to the same place: every planned
/// artifact owns its file.
pub proof fn lemma_planned_files_are_disjoint<R>(
    declared: Seq<OutputArtifact<R>>,
    planned: Seq<PlannedArtifact<R>>,
    root: Seq<char>,
    first: int,
    second: int,
)
    requires
        is_plan_of(declared, planned),
        0 <= first < planned.len(),
        0 <= second < planned.len(),
        first != second,
    ensures
        destination_of(root, planned[first].path@) != destination_of(root, planned[second].path@),
{
    let kept = survivors(declared_paths(declared));
    lemma_plan_holds_every_path_once(declared, planned);
    assert(planned_paths(planned)[first] != planned_paths(planned)[second]);
    assert(0 <= kept[first] < declared.len());
    assert(0 <= kept[second] < declared.len());
    lemma_destinations_differ(root, planned[first].path@, planned[second].path@);
}

/// A build that succeeds has ordered exactly one write for every planned
/// artifact, to the artifact's own place and with exactly the bytes of its
/// source: the launch command for bytes that were at hand, else the one
/// answer to the event that reported the produced bytes.
pub proof fn lemma_successful_build_writes_every_file_once<R>(
    root: Seq<char>,
    planned: Seq<PlannedArtifact<R>>,
    commands: Seq<Command<R>>,
    events: Seq<EventView>,
    index: int,
)
    requires
        is_start_of(root, planned, initial_state(root, planned), commands),
        initial_state(root, planned).after_all(events).outcome() == Some(Ok::<(), Failure>(())),
        0 <= index < planned.len(),
    ensures
        ({
            let writes = initial_state(root, planned).writes_ordered(events, index);
            match planned[index].bytes {
                DeferredBytes::Ready(content) => {
                    &&& writes.len() == 0
                    &&& commands[index] matches Command::Write(order)
                    &&& order@.index == index
                    &&& order@.destination == destination_of(root, planned[index].path@)
                    &&& order@.bytes == content@
                },
                _ => {
                    &&& !(commands[index] is Write)
                    &&& writes.len() == 1
                    &&& writes[0].index == index
                    &&& writes[0].destination == destination_of(root, planned[index].path@)
                    &&& exists|position: int|
                        0 <= position < events.len() && #[trigger] events[position]
                            == (EventView::Produced { index, bytes: writes[0].bytes })
                },
            }
        }),
{
    let start = initial_state(root, planned);
    lemma_each_file_is_ordered_once(start, events, index);
    lemma_success_means_all_written(start, events);
    assert(start.after_all(events).stages[index] == Stage::Written);
}

/// Where no path is declared twice, a build that succeeds has ordered
/// exactly one write for every declared artifact: to a place that no other
/// artifact shares, and with exactly the bytes of the artifact's source.
pub proof fn lemma_unique_artifacts_are_each_written_once<R>(
    root: Seq<char>,
    declared: Seq<OutputArtifact<R>>,
    planned: Seq<PlannedArtifact<R>>,
    commands: Seq<Command<R>>,
    events: Seq<EventView>,
    index: int,
)
    requires
        declared_paths(declared).no_duplicates(),
        is_plan_of(declared, planned),
        is_start_of(root, planned, initial_state(root, planned), commands),
        initial_state(root, planned).after_all(events).outcome() == Some(Ok::<(), Failure>(())),
        0 <= index < declared.len(),
    ensures
        planned.len() == declared.len(),
        forall|other: int|
            0 <= other < declared.len() && other != index ==> destination_of(
                root,
                #[trigger] declared[other].spec_path(),
            ) != destination_of(root, declared[index].spec_path()),
        ({
            let writes = initial_state(root, planned).writes_ordered(events, index);
            let place = destination_of(root, declared[index].spec_path());
            match declared[index].spec_source() {
                ContentSource::InlineBytes(content) => {
                    &&& writes.len() == 0
                    &&& commands[index] matches Command::Write(order)
                    &&& order@ == WriteOrderView { index, destination: place, bytes: content@ }
                },
                _ => {
                    &&& !(commands[index] is Write)
                    &&& writes.len() == 1
                    &&& writes[0].index == index
                    &&& writes[0].destination == place
                    &&& exists|position: int|
                        0 <= position < events.len() && #[trigger] events[position]
                            == (EventView::Produced { index, bytes: writes[0].bytes })
                },
            }
        }),
{
    lemma_unique_declarations_are_all_planned(declared, planned);
    lemma_successful_build_writes_every_file_once(root, planned, commands, events, index);
    assert(planned[index].path@ == declared[index].spec_path());
    assert forall|other: int| 0 <= other < declared.len() && other != index implies destination_of(
        root,
        #[trigger] declared[other].spec_path(),
    ) != destination_of(root, declared[index].spec_path()) by {
        lemma_planned_files_are_disjoint(declared, planned, root, other, index);
        assert(planned[other].path@ == declared[other].spec_path());
    }
}

} // verus!

//! Laws of loading by one thread or by several.

use vstd::prelude::*;

use crate::event::CodexTokenUsageEvent;
use crate::loader;
use crate::loader::CodexLogAccess;
use crate::reading;
use crate::reading::{LoadedFile, SessionVisit};
use crate::schedule;
use crate::sources;
use crate::sources::{CodexUsageGroup, CodexUsageSource, SessionFile};

verus! {

/// Whether the same plans can be made by several threads as by one.
pub open spec fn plans_alike<Plan, Prefix, Collect, Planner, Lookup, Visit, Work>(
    access: CodexLogAccess<Collect, Planner, Lookup, Visit, Work>,
) -> bool where
    Collect: Fn(&String) -> Vec<SessionFile>,
    Planner: Fn(&Vec<CodexUsageGroup>, bool) -> Plan,
    Lookup: Fn(&Plan, &SessionFile) -> Prefix,
    Visit: Fn(&String, &SessionFile, Prefix) -> SessionVisit,
    Work: Fn(&String, &Vec<SessionFile>, &Plan, &Vec<Vec<usize>>) -> Vec<LoadedFile>,
 {
    forall|groups: &Vec<CodexUsageGroup>, plan: Plan| #[trigger]
        access.plan_replay.ensures((groups, false), plan) ==> access.plan_replay.ensures(
            (groups, true),
            plan,
        )
}

/// Whether a directory is always found to hold the same logs.
pub open spec fn lists_the_same<Collect>(collect_files: Collect) -> bool where
    Collect: Fn(&String) -> Vec<SessionFile>,
 {
    forall|dir: &String, left: Vec<SessionFile>, right: Vec<SessionFile>| #[trigger]
        collect_files.ensures((dir,), left) && #[trigger] collect_files.ensures((dir,), right)
            ==> left@ == right@
}

/// Whether the same plan is always made for the same groups, by one thread or by several.
pub open spec fn plans_the_same<Plan, Planner>(plan_replay: Planner) -> bool where
    Planner: Fn(&Vec<CodexUsageGroup>, bool) -> Plan,
 {
    forall|
        left_groups: &Vec<CodexUsageGroup>,
        left_thread: bool,
        left: Plan,
        right_groups: &Vec<CodexUsageGroup>,
        right_thread: bool,
        right: Plan,
    |
        #[trigger] plan_replay.ensures((left_groups, left_thread), left)
            && #[trigger] plan_replay.ensures((right_groups, right_thread), right)
            && sources::group_views(left_groups@) == sources::group_views(right_groups@) ==> left
            == right
}

/// Whether a visit of a log, started with the same prefix, always comes across the same events.
pub open spec fn visits_the_same<Prefix, Visit>(visit_file: Visit) -> bool where
    Visit: Fn(&String, &SessionFile, Prefix) -> SessionVisit,
 {
    forall|
        left_dir: &String,
        right_dir: &String,
        file: &SessionFile,
        prefix: Prefix,
        left: SessionVisit,
        right: SessionVisit,
    |
        #[trigger] visit_file.ensures((left_dir, file, prefix), left)
            && #[trigger] visit_file.ensures((right_dir, file, prefix), right) && left_dir@
            == right_dir@ ==> left.events@ == right.events@
}

/// Whether two plans have the same for a log.
pub open spec fn plans_agree_on<Plan, Prefix, Lookup>(
    replay_prefix: Lookup,
    left_plan: &Plan,
    right_plan: &Plan,
    file: &SessionFile,
) -> bool where Lookup: Fn(&Plan, &SessionFile) -> Prefix {
    forall|left: Prefix, right: Prefix| #[trigger]
        replay_prefix.ensures((left_plan, file), left) && #[trigger] replay_prefix.ensures(
            (right_plan, file),
            right,
        ) ==> left == right
}

/// Whether each function by which a load reaches the logs has one outcome for the same arguments.
/// The workers are left out: what they do is said by `workers_read_their_chunks`.
pub open spec fn has_one_outcome<Plan, Prefix, Collect, Planner, Lookup, Visit, Work>(
    access: CodexLogAccess<Collect, Planner, Lookup, Visit, Work>,
) -> bool where
    Collect: Fn(&String) -> Vec<SessionFile>,
    Planner: Fn(&Vec<CodexUsageGroup>, bool) -> Plan,
    Lookup: Fn(&Plan, &SessionFile) -> Prefix,
    Visit: Fn(&String, &SessionFile, Prefix) -> SessionVisit,
    Work: Fn(&String, &Vec<SessionFile>, &Plan, &Vec<Vec<usize>>) -> Vec<LoadedFile>,
 {
    &&& lists_the_same(access.collect_files)
    &&& plans_the_same(access.plan_replay)
    &&& forall|plan: &Plan, file: &SessionFile| #[trigger]
        plans_agree_on(access.replay_prefix, plan, plan, file)
    &&& visits_the_same(access.visit_file)
}

/// A reading by workers that read their chunks is a reading of one log after another.
proof fn lemma_group_reading_in_order<Plan, Prefix, Collect, Planner, Lookup, Visit, Work>(
    access: CodexLogAccess<Collect, Planner, Lookup, Visit, Work>,
    in_order: bool,
    group: &CodexUsageGroup,
    plan: &Plan,
    events: Seq<CodexTokenUsageEvent>,
) where
    Collect: Fn(&String) -> Vec<SessionFile>,
    Planner: Fn(&Vec<CodexUsageGroup>, bool) -> Plan,
    Lookup: Fn(&Plan, &SessionFile) -> Prefix,
    Visit: Fn(&String, &SessionFile, Prefix) -> SessionVisit,
    Work: Fn(&String, &Vec<SessionFile>, &Plan, &Vec<Vec<usize>>) -> Vec<LoadedFile>,

    requires
        loader::workers_read_their_chunks(access),
        loader::is_group_reading(access, in_order, group, plan, events),
    ensures
        loader::is_group_reading(access, true, group, plan, events),
{
    let workers = schedule::worker_count_spec(access.available_parallelism, group.files@.len());
    if !in_order && workers > 1 {
        assert(reading::do_workers_read(
            access.replay_prefix,
            access.visit_file,
            access.run_workers,
            &group.dir,
            &group.files,
            plan,
        ));
        let (chunks, loaded) = choose|chunks: Vec<Vec<usize>>, loaded: Vec<LoadedFile>|
            {
                &&& schedule::chunk_views(chunks@) == schedule::chunks_by_size(
                    group.files@,
                    workers,
                    group.files@.len(),
                )
                &&& schedule::is_chunking(group.files@, workers, chunks@)
                &&& #[trigger] access.run_workers.ensures(
                    (&group.dir, &group.files, plan, &chunks),
                    loaded,
                )
                &&& reading::merged_files(group.files@.len(), loaded@) == events
            };
        reading::lemma_merged_readings_are_in_order(
            access.replay_prefix,
            access.visit_file,
            &group.dir,
            &group.files,
            plan,
            loaded@,
        );
    }
}

/// A load by workers that read their chunks reads the logs of each group one after another.
pub proof fn lemma_groups_load_in_order<Plan, Prefix, Collect, Planner, Lookup, Visit, Work>(
    access: CodexLogAccess<Collect, Planner, Lookup, Visit, Work>,
    single_thread: bool,
    in_order: bool,
    groups: &Vec<CodexUsageGroup>,
    events: Seq<CodexTokenUsageEvent>,
) where
    Collect: Fn(&String) -> Vec<SessionFile>,
    Planner: Fn(&Vec<CodexUsageGroup>, bool) -> Plan,
    Lookup: Fn(&Plan, &SessionFile) -> Prefix,
    Visit: Fn(&String, &SessionFile, Prefix) -> SessionVisit,
    Work: Fn(&String, &Vec<SessionFile>, &Plan, &Vec<Vec<usize>>) -> Vec<LoadedFile>,

    requires
        loader::workers_read_their_chunks(access),
        loader::is_load_of_groups_by(access, single_thread, in_order, groups, events),
    ensures
        loader::is_load_of_groups_by(access, single_thread, true, groups, events),
{
    let (plan, readings) = choose|plan: Plan, readings: Seq<Seq<CodexTokenUsageEvent>>| #[trigger]
        loader::is_load_from(access, single_thread, in_order, groups, plan, readings, events);
    assert forall|i: int| 0 <= i < readings.len() implies loader::is_group_reading(
        access,
        true,
        &groups@[i],
        &plan,
        #[trigger] readings[i],
    ) by {
        lemma_group_reading_in_order(access, in_order, &groups@[i], &plan, readings[i]);
    }
    assert(loader::is_load_from(access, single_thread, true, groups, plan, readings, events));
}

/// A load by workers that read their chunks, as one that reads one log after another.
pub proof fn lemma_load_in_order<Plan, Prefix, Collect, Planner, Lookup, Visit, Work>(
    access: CodexLogAccess<Collect, Planner, Lookup, Visit, Work>,
    single_thread: bool,
    usage_sources: Seq<CodexUsageSource>,
    events: Seq<CodexTokenUsageEvent>,
) -> (read: (Vec<CodexUsageGroup>, Plan, Seq<Seq<CodexTokenUsageEvent>>)) where
    Collect: Fn(&String) -> Vec<SessionFile>,
    Planner: Fn(&Vec<CodexUsageGroup>, bool) -> Plan,
    Lookup: Fn(&Plan, &SessionFile) -> Prefix,
    Visit: Fn(&String, &SessionFile, Prefix) -> SessionVisit,
    Work: Fn(&String, &Vec<SessionFile>, &Plan, &Vec<Vec<usize>>) -> Vec<LoadedFile>,

    requires
        loader::workers_read_their_chunks(access),
        loader::is_sources_load(access, single_thread, usage_sources, events),
    ensures
        loader::are_source_groups(access.collect_files, usage_sources, &read.0),
        loader::is_load_from(access, single_thread, true, &read.0, read.1, read.2, events),
{
    let groups = choose|groups: Vec<CodexUsageGroup>|
        loader::are_source_groups(access.collect_files, usage_sources, &groups)
            && #[trigger] loader::is_load_of_groups_by(
            access,
            single_thread,
            single_thread,
            &groups,
            events,
        );
    lemma_groups_load_in_order(access, single_thread, single_thread, &groups, events);
    let (plan, readings) = choose|plan: Plan, readings: Seq<Seq<CodexTokenUsageEvent>>| #[trigger]
        loader::is_load_from(access, single_thread, true, &groups, plan, readings, events);
    (groups, plan, readings)
}

/// What several threads load of some groups can be loaded by one thread.
pub proof fn law_threads_do_not_matter_to_groups<
    Plan,
    Prefix,
    Collect,
    Planner,
    Lookup,
    Visit,
    Work,
>(
    access: CodexLogAccess<Collect, Planner, Lookup, Visit, Work>,
    groups: &Vec<CodexUsageGroup>,
    events: Seq<CodexTokenUsageEvent>,
) where
    Collect: Fn(&String) -> Vec<SessionFile>,
    Planner: Fn(&Vec<CodexUsageGroup>, bool) -> Plan,
    Lookup: Fn(&Plan, &SessionFile) -> Prefix,
    Visit: Fn(&String, &SessionFile, Prefix) -> SessionVisit,
    Work: Fn(&String, &Vec<SessionFile>, &Plan, &Vec<Vec<usize>>) -> Vec<LoadedFile>,

    requires
        loader::workers_read_their_chunks(access),
        plans_alike(access),
        loader::is_load_of_groups(access, false, groups, events),
    ensures
        loader::is_load_of_groups(access, true, groups, events),
{
    lemma_groups_load_in_order(access, false, false, groups, events);
    let (plan, readings) = choose|plan: Plan, readings: Seq<Seq<CodexTokenUsageEvent>>| #[trigger]
        loader::is_load_from(access, false, true, groups, plan, readings, events);
    assert(loader::is_load_from(access, true, true, groups, plan, readings, events));
}

/// What several threads load of a directory can be loaded by one thread.
pub proof fn law_threads_do_not_matter_to_a_directory<
    Plan,
    Prefix,
    Collect,
    Planner,
    Lookup,
    Visit,
    Work,
>(
    access: CodexLogAccess<Collect, Planner, Lookup, Visit, Work>,
    dir: &String,
    events: Seq<CodexTokenUsageEvent>,
) where
    Collect: Fn(&String) -> Vec<SessionFile>,
    Planner: Fn(&Vec<CodexUsageGroup>, bool) -> Plan,
    Lookup: Fn(&Plan, &SessionFile) -> Prefix,
    Visit: Fn(&String, &SessionFile, Prefix) -> SessionVisit,
    Work: Fn(&String, &Vec<SessionFile>, &Plan, &Vec<Vec<usize>>) -> Vec<LoadedFile>,

    requires
        loader::workers_read_their_chunks(access),
        plans_alike(access),
        loader::is_directory_load(access, false, dir, events),
    ensures
        loader::is_directory_load(access, true, dir, events),
{
    let groups = choose|groups: Vec<CodexUsageGroup>|
        loader::is_directory_group(access.collect_files, dir, &groups)
            && #[trigger] loader::is_load_of_groups_by(access, false, false, &groups, events);
    law_threads_do_not_matter_to_groups(access, &groups, events);
}

/// What several threads load of some sources can be loaded by one thread.
pub proof fn law_threads_do_not_matter_to_sources<
    Plan,
    Prefix,
    Collect,
    Planner,
    Lookup,
    Visit,
    Work,
>(
    access: CodexLogAccess<Collect, Planner, Lookup, Visit, Work>,
    usage_sources: Seq<CodexUsageSource>,
    events: Seq<CodexTokenUsageEvent>,
) where
    Collect: Fn(&String) -> Vec<SessionFile>,
    Planner: Fn(&Vec<CodexUsageGroup>, bool) -> Plan,
    Lookup: Fn(&Plan, &SessionFile) -> Prefix,
    Visit: Fn(&String, &SessionFile, Prefix) -> SessionVisit,
    Work: Fn(&String, &Vec<SessionFile>, &Plan, &Vec<Vec<usize>>) -> Vec<LoadedFile>,

    requires
        loader::workers_read_their_chunks(access),
        plans_alike(access),
        loader::is_sources_load(access, false, usage_sources, events),
    ensures
        loader::is_sources_load(access, true, usage_sources, events),
{
    let groups = choose|groups: Vec<CodexUsageGroup>|
        loader::are_source_groups(access.collect_files, usage_sources, &groups)
            && #[trigger] loader::is_load_of_groups_by(access, false, false, &groups, events);
    law_threads_do_not_matter_to_groups(access, &groups, events);
}

/// Readings of the same log, by plans that have the same for it.
pub proof fn lemma_file_readings_agree<Plan, Prefix, Lookup, Visit>(
    replay_prefix: Lookup,
    visit_file: Visit,
    file: &SessionFile,
    left_dir: &String,
    left_plan: &Plan,
    left_events: Seq<CodexTokenUsageEvent>,
    right_dir: &String,
    right_plan: &Plan,
    right_events: Seq<CodexTokenUsageEvent>,
) where
    Lookup: Fn(&Plan, &SessionFile) -> Prefix,
    Visit: Fn(&String, &SessionFile, Prefix) -> SessionVisit,

    requires
        visits_the_same(visit_file),
        left_dir@ == right_dir@,
        plans_agree_on(replay_prefix, left_plan, right_plan, file),
        reading::is_file_reading(
            replay_prefix,
            visit_file,
            left_dir,
            file,
            left_plan,
            left_events,
        ),
        reading::is_file_reading(
            replay_prefix,
            visit_file,
            right_dir,
            file,
            right_plan,
            right_events,
        ),
    ensures
        left_events == right_events,
{
    let (left_prefix, left_visit) = choose|prefix: Prefix, visit: SessionVisit|
        replay_prefix.ensures((left_plan, file), prefix) && #[trigger] visit_file.ensures(
            (left_dir, file, prefix),
            visit,
        ) && visit.events@ == left_events;
    let (right_prefix, right_visit) = choose|prefix: Prefix, visit: SessionVisit|
        replay_prefix.ensures((right_plan, file), prefix) && #[trigger] visit_file.ensures(
            (right_dir, file, prefix),
            visit,
        ) && visit.events@ == right_events;
    assert(left_prefix == right_prefix);
}

/// Readings of the same logs, one after another, by plans that have the same for each of them.
pub proof fn lemma_in_order_readings_agree<Plan, Prefix, Lookup, Visit>(
    replay_prefix: Lookup,
    visit_file: Visit,
    left: &CodexUsageGroup,
    left_plan: &Plan,
    left_events: Seq<CodexTokenUsageEvent>,
    right: &CodexUsageGroup,
    right_plan: &Plan,
    right_events: Seq<CodexTokenUsageEvent>,
) where
    Lookup: Fn(&Plan, &SessionFile) -> Prefix,
    Visit: Fn(&String, &SessionFile, Prefix) -> SessionVisit,

    requires
        visits_the_same(visit_file),
        left@ == right@,
        forall|i: int|
            0 <= i < left.files@.len() ==> plans_agree_on(
                replay_prefix,
                left_plan,
                right_plan,
                &#[trigger] left.files@[i],
            ),
        reading::is_in_order_reading(
            replay_prefix,
            visit_file,
            &left.dir,
            &left.files,
            left_plan,
            left_events,
        ),
        reading::is_in_order_reading(
            replay_prefix,
            visit_file,
            &right.dir,
            &right.files,
            right_plan,
            right_events,
        ),
    ensures
        left_events == right_events,
{
    let left_readings = choose|readings: Seq<Seq<CodexTokenUsageEvent>>|
        {
            &&& readings.len() == left.files@.len()
            &&& forall|i: int|
                0 <= i < readings.len() ==> reading::is_file_reading(
                    replay_prefix,
                    visit_file,
                    &left.dir,
                    &left.files@[i],
                    left_plan,
                    #[trigger] readings[i],
                )
            &&& #[trigger] readings.flatten() == left_events
        };
    let right_readings = choose|readings: Seq<Seq<CodexTokenUsageEvent>>|
        {
            &&& readings.len() == right.files@.len()
            &&& forall|i: int|
                0 <= i < readings.len() ==> reading::is_file_reading(
                    replay_prefix,
                    visit_file,
                    &right.dir,
                    &right.files@[i],
                    right_plan,
                    #[trigger] readings[i],
                )
            &&& #[trigger] readings.flatten() == right_events
        };
    assert(left.dir@ == right.dir@ && left.files@ == right.files@);
    assert forall|i: int| 0 <= i < left_readings.len() implies #[trigger] left_readings[i]
        == right_readings[i] by {
        let file = &left.files@[i];
        assert(plans_agree_on(replay_prefix, left_plan, right_plan, file));
        assert(reading::is_file_reading(
            replay_prefix,
            visit_file,
            &left.dir,
            file,
            left_plan,
            left_readings[i],
        ));
        assert(reading::is_file_reading(
            replay_prefix,
            visit_file,
            &right.dir,
            file,
            right_plan,
            right_readings[i],
        ));
        lemma_file_readings_agree(
            replay_prefix,
            visit_file,
            file,
            &left.dir,
            left_plan,
            left_readings[i],
            &right.dir,
            right_plan,
            right_readings[i],
        );
    }
    assert(left_readings =~= right_readings);
}

/// Where each function has one outcome, and the workers read their chunks, a load of some groups
/// has one outcome, whatever number of threads it is made by.
pub proof fn law_loads_of_groups_are_equal<Plan, Prefix, Collect, Planner, Lookup, Visit, Work>(
    access: CodexLogAccess<Collect, Planner, Lookup, Visit, Work>,
    left_thread: bool,
    left_groups: &Vec<CodexUsageGroup>,
    left_events: Seq<CodexTokenUsageEvent>,
    right_thread: bool,
    right_groups: &Vec<CodexUsageGroup>,
    right_events: Seq<CodexTokenUsageEvent>,
) where
    Collect: Fn(&String) -> Vec<SessionFile>,
    Planner: Fn(&Vec<CodexUsageGroup>, bool) -> Plan,
    Lookup: Fn(&Plan, &SessionFile) -> Prefix,
    Visit: Fn(&String, &SessionFile, Prefix) -> SessionVisit,
    Work: Fn(&String, &Vec<SessionFile>, &Plan, &Vec<Vec<usize>>) -> Vec<LoadedFile>,

    requires
        has_one_outcome(access),
        loader::workers_read_their_chunks(access),
        sources::group_views(left_groups@) == sources::group_views(right_groups@),
        loader::is_load_of_groups(access, left_thread, left_groups, left_events),
        loader::is_load_of_groups(access, right_thread, right_groups, right_events),
    ensures
        left_events == right_events,
{
    lemma_groups_load_in_order(access, left_thread, left_thread, left_groups, left_events);
    lemma_groups_load_in_order(access, right_thread, right_thread, right_groups, right_events);
    let (left_plan, left_readings) = choose|
        plan: Plan,
        readings: Seq<Seq<CodexTokenUsageEvent>>,
    | #[trigger]
        loader::is_load_from(access, left_thread, true, left_groups, plan, readings, left_events);
    let (right_plan, right_readings) = choose|
        plan: Plan,
        readings: Seq<Seq<CodexTokenUsageEvent>>,
    | #[trigger]
        loader::is_load_from(
            access,
            right_thread,
            true,
            right_groups,
            plan,
            readings,
            right_events,
        );
    assert(left_plan == right_plan);
    assert(sources::group_views(left_groups@).len() == left_groups@.len());
    assert(sources::group_views(right_groups@).len() == right_groups@.len());
    assert forall|i: int| 0 <= i < left_readings.len() implies #[trigger] left_readings[i]
        == right_readings[i] by {
        assert(sources::group_views(left_groups@)[i] == left_groups@[i]@);
        assert(sources::group_views(right_groups@)[i] == right_groups@[i]@);
        assert(loader::is_group_reading(
            access,
            true,
            &right_groups@[i],
            &right_plan,
            right_readings[i],
        ));
        lemma_in_order_readings_agree(
            access.replay_prefix,
            access.visit_file,
            &left_groups@[i],
            &left_plan,
            left_readings[i],
            &right_groups@[i],
            &right_plan,
            right_readings[i],
        );
    }
    assert(left_readings =~= right_readings);
}

/// Where each function has one outcome, and the workers read their chunks, one thread and several
/// load the same of a directory.
pub proof fn law_directory_loads_are_equal<Plan, Prefix, Collect, Planner, Lookup, Visit, Work>(
    access: CodexLogAccess<Collect, Planner, Lookup, Visit, Work>,
    dir: &String,
    left_thread: bool,
    left_events: Seq<CodexTokenUsageEvent>,
    right_thread: bool,
    right_events: Seq<CodexTokenUsageEvent>,
) where
    Collect: Fn(&String) -> Vec<SessionFile>,
    Planner: Fn(&Vec<CodexUsageGroup>, bool) -> Plan,
    Lookup: Fn(&Plan, &SessionFile) -> Prefix,
    Visit: Fn(&String, &SessionFile, Prefix) -> SessionVisit,
    Work: Fn(&String, &Vec<SessionFile>, &Plan, &Vec<Vec<usize>>) -> Vec<LoadedFile>,

    requires
        has_one_outcome(access),
        loader::workers_read_their_chunks(access),
        loader::is_directory_load(access, left_thread, dir, left_events),
        loader::is_directory_load(access, right_thread, dir, right_events),
    ensures
        left_events == right_events,
{
    let left_groups = choose|groups: Vec<CodexUsageGroup>|
        loader::is_directory_group(access.collect_files, dir, &groups)
            && #[trigger] loader::is_load_of_groups_by(
            access,
            left_thread,
            left_thread,
            &groups,
            left_events,
        );
    let right_groups = choose|groups: Vec<CodexUsageGroup>|
        loader::is_directory_group(access.collect_files, dir, &groups)
            && #[trigger] loader::is_load_of_groups_by(
            access,
            right_thread,
            right_thread,
            &groups,
            right_events,
        );
    law_loads_of_groups_are_equal(
        access,
        left_thread,
        &left_groups,
        left_events,
        right_thread,
        &right_groups,
        right_events,
    );
}

/// Listings that hold the same logs give the same groups.
pub proof fn lemma_groups_of_equal_listings(
    usage_sources: Seq<CodexUsageSource>,
    left: Seq<Vec<SessionFile>>,
    right: Seq<Vec<SessionFile>>,
)
    requires
        left.len() == usage_sources.len(),
        right.len() == usage_sources.len(),
        forall|i: int| 0 <= i < left.len() ==> (#[trigger] left[i])@ == right[i]@,
    ensures
        sources::deduped_groups(usage_sources, left) == sources::deduped_groups(
            usage_sources,
            right,
        ),
{
    assert forall|source: int| 0 <= source < usage_sources.len() implies sources::kept_files(
        usage_sources,
        left,
        source,
        #[trigger] left[source]@.len() as int,
    ) == sources::kept_files(usage_sources, right, source, right[source]@.len() as int) by {
        lemma_kept_of_equal_listings(
            usage_sources,
            left,
            right,
            source,
            left[source]@.len() as int,
        );
    }
    assert(sources::deduped_groups(usage_sources, left) =~= sources::deduped_groups(
        usage_sources,
        right,
    ));
}

proof fn lemma_kept_of_equal_listings(
    usage_sources: Seq<CodexUsageSource>,
    left: Seq<Vec<SessionFile>>,
    right: Seq<Vec<SessionFile>>,
    source: int,
    count: int,
)
    requires
        left.len() == usage_sources.len(),
        right.len() == usage_sources.len(),
        forall|i: int| 0 <= i < left.len() ==> (#[trigger] left[i])@ == right[i]@,
        0 <= source < left.len(),
        0 <= count <= left[source]@.len(),
    ensures
        sources::kept_files(usage_sources, left, source, count) == sources::kept_files(
            usage_sources,
            right,
            source,
            count,
        ),
    decreases count,
{
    if count > 0 {
        lemma_kept_of_equal_listings(usage_sources, left, right, source, count - 1);
        let home = usage_sources[source].home@;
        let relative_path = left[source]@[count - 1].relative_path@;
        lemma_listed_in_equal_listings(
            usage_sources,
            left,
            right,
            source,
            count - 1,
            home,
            relative_path,
        );
        lemma_listed_in_equal_listings(
            usage_sources,
            right,
            left,
            source,
            count - 1,
            home,
            relative_path,
        );
    }
}

proof fn lemma_listed_in_equal_listings(
    usage_sources: Seq<CodexUsageSource>,
    left: Seq<Vec<SessionFile>>,
    right: Seq<Vec<SessionFile>>,
    source: int,
    count: int,
    home: Seq<char>,
    relative_path: Seq<char>,
)
    requires
        left.len() == right.len(),
        forall|i: int| 0 <= i < left.len() ==> (#[trigger] left[i])@ == right[i]@,
        0 <= source < left.len(),
    ensures
        sources::is_listed(usage_sources, left, source, count, home, relative_path)
            ==> sources::is_listed(usage_sources, right, source, count, home, relative_path),
{
    if sources::is_listed(usage_sources, left, source, count, home, relative_path) {
        let (at, file) = choose|at: int, file: int|
            #![trigger left[at]@[file]]
            0 <= at <= source && 0 <= file < (if at < source {
                left[at]@.len() as int
            } else {
                count
            }) && usage_sources[at].home@ == home && left[at]@[file].relative_path@
                == relative_path;
        assert(left[at]@ == right[at]@);
        assert(right[at]@[file].relative_path@ == relative_path);
    }
}

/// Where a directory is always found to hold the same logs, sources have the same groups.
pub proof fn lemma_source_groups_are_equal<Collect>(
    collect_files: Collect,
    usage_sources: Seq<CodexUsageSource>,
    left: &Vec<CodexUsageGroup>,
    right: &Vec<CodexUsageGroup>,
) where Collect: Fn(&String) -> Vec<SessionFile>
    requires
        lists_the_same(collect_files),
        loader::are_source_groups(collect_files, usage_sources, left),
        loader::are_source_groups(collect_files, usage_sources, right),
    ensures
        sources::group_views(left@) == sources::group_views(right@),
{
    if usage_sources.len() != 1 {
        let left_listings = choose|listings: Seq<Vec<SessionFile>>|
            {
                &&& #[trigger] loader::are_listings(collect_files, usage_sources, listings)
                &&& sources::group_views(left@) == sources::deduped_groups(usage_sources, listings)
            };
        let right_listings = choose|listings: Seq<Vec<SessionFile>>|
            {
                &&& #[trigger] loader::are_listings(collect_files, usage_sources, listings)
                &&& sources::group_views(right@) == sources::deduped_groups(usage_sources, listings)
            };
        lemma_listings_are_equal(collect_files, usage_sources, left_listings, right_listings);
        lemma_groups_of_equal_listings(usage_sources, left_listings, right_listings);
    }
}

/// Where a directory is always found to hold the same logs, sources have the same listings.
pub proof fn lemma_listings_are_equal<Collect>(
    collect_files: Collect,
    usage_sources: Seq<CodexUsageSource>,
    left: Seq<Vec<SessionFile>>,
    right: Seq<Vec<SessionFile>>,
) where Collect: Fn(&String) -> Vec<SessionFile>
    requires
        lists_the_same(collect_files),
        loader::are_listings(collect_files, usage_sources, left),
        loader::are_listings(collect_files, usage_sources, right),
    ensures
        forall|i: int| 0 <= i < left.len() ==> (#[trigger] left[i])@ == right[i]@,
{
    assert forall|i: int| 0 <= i < left.len() implies (#[trigger] left[i])@ == right[i]@ by {
        assert(collect_files.ensures((&usage_sources[i].dir,), right[i]));
    }
}

/// Where each function has one outcome, and the workers read their chunks, one thread and several
/// load the same of some sources.
pub proof fn law_sources_loads_are_equal<Plan, Prefix, Collect, Planner, Lookup, Visit, Work>(
    access: CodexLogAccess<Collect, Planner, Lookup, Visit, Work>,
    usage_sources: Seq<CodexUsageSource>,
    left_thread: bool,
    left_events: Seq<CodexTokenUsageEvent>,
    right_thread: bool,
    right_events: Seq<CodexTokenUsageEvent>,
) where
    Collect: Fn(&String) -> Vec<SessionFile>,
    Planner: Fn(&Vec<CodexUsageGroup>, bool) -> Plan,
    Lookup: Fn(&Plan, &SessionFile) -> Prefix,
    Visit: Fn(&String, &SessionFile, Prefix) -> SessionVisit,
    Work: Fn(&String, &Vec<SessionFile>, &Plan, &Vec<Vec<usize>>) -> Vec<LoadedFile>,

    requires
        has_one_outcome(access),
        loader::workers_read_their_chunks(access),
        loader::is_sources_load(access, left_thread, usage_sources, left_events),
        loader::is_sources_load(access, right_thread, usage_sources, right_events),
    ensures
        left_events == right_events,
{
    let left_groups = choose|groups: Vec<CodexUsageGroup>|
        loader::are_source_groups(access.collect_files, usage_sources, &groups)
            && #[trigger] loader::is_load_of_groups_by(
            access,
            left_thread,
            left_thread,
            &groups,
            left_events,
        );
    let right_groups = choose|groups: Vec<CodexUsageGroup>|
        loader::are_source_groups(access.collect_files, usage_sources, &groups)
            && #[trigger] loader::is_load_of_groups_by(
            access,
            right_thread,
            right_thread,
            &groups,
            right_events,
        );
    lemma_source_groups_are_equal(
        access.collect_files,
        usage_sources,
        &left_groups,
        &right_groups,
    );
    law_loads_of_groups_are_equal(
        access,
        left_thread,
        &left_groups,
        left_events,
        right_thread,
        &right_groups,
        right_events,
    );
}

} // verus!

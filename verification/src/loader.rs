//! Loading the token usage of Codex sessions.

use vstd::prelude::*;

use crate::dedupe;
use crate::event::CodexTokenUsageEvent;
use crate::reading;
use crate::reading::{LoadedFile, SessionVisit};
use crate::schedule;
use crate::sources;
use crate::sources::{CodexUsageGroup, CodexUsageSource, SessionFile};

verus! {

/// The arguments that all reports share, as far as a load depends on them.
#[derive(Clone, Copy, Debug)]
pub struct SharedArgs {
    /// Whether the report is written as JSON, so that nothing else may be written.
    pub json: bool,
    /// Whether the logs are read one after another.
    pub single_thread: bool,
}

/// How a load reaches the session logs.
///
/// Nothing is known of what the functions return: the contract of a load says what it gives for
/// whatever they return.
pub struct CodexLogAccess<Collect, Planner, Lookup, Visit, Work> {
    /// The logs under a directory, in the order in which they are read.
    pub collect_files: Collect,
    /// The plan of what the logs of some groups replay of one another, made by one thread or by
    /// several.
    pub plan_replay: Planner,
    /// What a plan has for a log.
    pub replay_prefix: Lookup,
    /// A visit of a log under a directory, started with what the plan has for the log.
    pub visit_file: Visit,
    /// Reads the logs of each chunk with a worker of its own, and hands back what the workers
    /// loaded.
    pub run_workers: Work,
    /// How many workers can run at once, if that is known.
    pub available_parallelism: Option<usize>,
}

/// Whether the functions take every argument that a load hands them, and the workers hand back
/// only indexes of the logs that they were to read.
pub open spec fn is_usable<Plan, Prefix, Collect, Planner, Lookup, Visit, Work>(
    access: CodexLogAccess<Collect, Planner, Lookup, Visit, Work>,
) -> bool where
    Collect: Fn(&String) -> Vec<SessionFile>,
    Planner: Fn(&Vec<CodexUsageGroup>, bool) -> Plan,
    Lookup: Fn(&Plan, &SessionFile) -> Prefix,
    Visit: Fn(&String, &SessionFile, Prefix) -> SessionVisit,
    Work: Fn(&String, &Vec<SessionFile>, &Plan, &Vec<Vec<usize>>) -> Vec<LoadedFile>,
 {
    &&& forall|dir: &String| #[trigger] access.collect_files.requires((dir,))
    &&& forall|groups: &Vec<CodexUsageGroup>, single_thread: bool| #[trigger]
        access.plan_replay.requires((groups, single_thread))
    &&& forall|plan: &Plan, file: &SessionFile| #[trigger]
        access.replay_prefix.requires((plan, file))
    &&& forall|dir: &String, file: &SessionFile, prefix: Prefix| #[trigger]
        access.visit_file.requires((dir, file, prefix))
    &&& forall|dir: &String, files: &Vec<SessionFile>, plan: &Plan, chunks: &Vec<Vec<usize>>|
        schedule::is_partition(files@.len(), chunks@) ==> #[trigger] access.run_workers.requires(
            (dir, files, plan, chunks),
        )
    &&& forall|
        dir: &String,
        files: &Vec<SessionFile>,
        plan: &Plan,
        chunks: &Vec<Vec<usize>>,
        loaded: Vec<LoadedFile>,
    |
        schedule::is_partition(files@.len(), chunks@) && #[trigger] access.run_workers.ensures(
            (dir, files, plan, chunks),
            loaded,
        ) ==> reading::indexes_in_range(loaded@, files@.len())
}

/// Whether a reading of the logs of `group` can give `events`.
pub open spec fn is_group_reading<Plan, Prefix, Collect, Planner, Lookup, Visit, Work>(
    access: CodexLogAccess<Collect, Planner, Lookup, Visit, Work>,
    single_thread: bool,
    group: &CodexUsageGroup,
    plan: &Plan,
    events: Seq<CodexTokenUsageEvent>,
) -> bool where
    Collect: Fn(&String) -> Vec<SessionFile>,
    Planner: Fn(&Vec<CodexUsageGroup>, bool) -> Plan,
    Lookup: Fn(&Plan, &SessionFile) -> Prefix,
    Visit: Fn(&String, &SessionFile, Prefix) -> SessionVisit,
    Work: Fn(&String, &Vec<SessionFile>, &Plan, &Vec<Vec<usize>>) -> Vec<LoadedFile>,
 {
    let workers = schedule::worker_count_spec(access.available_parallelism, group.files@.len());
    if single_thread || workers <= 1 {
        reading::is_in_order_reading(
            access.replay_prefix,
            access.visit_file,
            &group.dir,
            &group.files,
            plan,
            events,
        )
    } else {
        reading::is_shared_reading(
            access.run_workers,
            workers,
            &group.dir,
            &group.files,
            plan,
            events,
        )
    }
}

/// Whether the workers read the logs that they are handed, and hand back what they read.
pub open spec fn workers_read_their_chunks<Plan, Prefix, Collect, Planner, Lookup, Visit, Work>(
    access: CodexLogAccess<Collect, Planner, Lookup, Visit, Work>,
) -> bool where
    Collect: Fn(&String) -> Vec<SessionFile>,
    Planner: Fn(&Vec<CodexUsageGroup>, bool) -> Plan,
    Lookup: Fn(&Plan, &SessionFile) -> Prefix,
    Visit: Fn(&String, &SessionFile, Prefix) -> SessionVisit,
    Work: Fn(&String, &Vec<SessionFile>, &Plan, &Vec<Vec<usize>>) -> Vec<LoadedFile>,
 {
    forall|dir: &String, files: &Vec<SessionFile>, plan: &Plan| #[trigger]
        reading::do_workers_read(
            access.replay_prefix,
            access.visit_file,
            access.run_workers,
            dir,
            files,
            plan,
        )
}

/// Whether `events` is what a load makes of `readings`: `plan` is the plan that is made for all of
/// the groups, the readings are of each group by that plan, and of the readings, put together in
/// the order of the groups, the first copy of each event is kept.
///
/// The plan is made by one thread or by several, as `single_thread` says. Where `in_order` holds,
/// the logs of each group are read one after another.
pub open spec fn is_load_from<Plan, Prefix, Collect, Planner, Lookup, Visit, Work>(
    access: CodexLogAccess<Collect, Planner, Lookup, Visit, Work>,
    single_thread: bool,
    in_order: bool,
    groups: &Vec<CodexUsageGroup>,
    plan: Plan,
    readings: Seq<Seq<CodexTokenUsageEvent>>,
    events: Seq<CodexTokenUsageEvent>,
) -> bool where
    Collect: Fn(&String) -> Vec<SessionFile>,
    Planner: Fn(&Vec<CodexUsageGroup>, bool) -> Plan,
    Lookup: Fn(&Plan, &SessionFile) -> Prefix,
    Visit: Fn(&String, &SessionFile, Prefix) -> SessionVisit,
    Work: Fn(&String, &Vec<SessionFile>, &Plan, &Vec<Vec<usize>>) -> Vec<LoadedFile>,
 {
    &&& access.plan_replay.ensures((groups, single_thread), plan)
    &&& readings.len() == groups@.len()
    &&& forall|i: int|
        0 <= i < readings.len() ==> is_group_reading(
            access,
            in_order,
            &groups@[i],
            &plan,
            #[trigger] readings[i],
        )
    &&& events == dedupe::deduped(readings.flatten())
}

/// Whether a load of `groups` can give `events`, with the logs of each group read one after
/// another where `in_order` holds.
pub open spec fn is_load_of_groups_by<Plan, Prefix, Collect, Planner, Lookup, Visit, Work>(
    access: CodexLogAccess<Collect, Planner, Lookup, Visit, Work>,
    single_thread: bool,
    in_order: bool,
    groups: &Vec<CodexUsageGroup>,
    events: Seq<CodexTokenUsageEvent>,
) -> bool where
    Collect: Fn(&String) -> Vec<SessionFile>,
    Planner: Fn(&Vec<CodexUsageGroup>, bool) -> Plan,
    Lookup: Fn(&Plan, &SessionFile) -> Prefix,
    Visit: Fn(&String, &SessionFile, Prefix) -> SessionVisit,
    Work: Fn(&String, &Vec<SessionFile>, &Plan, &Vec<Vec<usize>>) -> Vec<LoadedFile>,
 {
    exists|plan: Plan, readings: Seq<Seq<CodexTokenUsageEvent>>| #[trigger]
        is_load_from(access, single_thread, in_order, groups, plan, readings, events)
}

/// Whether a load of `groups` can give `events`: one plan is made for all of them, each group is
/// read by that plan, and of what the groups hold, put together in their order, the first copy of
/// each event is kept.
pub open spec fn is_load_of_groups<Plan, Prefix, Collect, Planner, Lookup, Visit, Work>(
    access: CodexLogAccess<Collect, Planner, Lookup, Visit, Work>,
    single_thread: bool,
    groups: &Vec<CodexUsageGroup>,
    events: Seq<CodexTokenUsageEvent>,
) -> bool where
    Collect: Fn(&String) -> Vec<SessionFile>,
    Planner: Fn(&Vec<CodexUsageGroup>, bool) -> Plan,
    Lookup: Fn(&Plan, &SessionFile) -> Prefix,
    Visit: Fn(&String, &SessionFile, Prefix) -> SessionVisit,
    Work: Fn(&String, &Vec<SessionFile>, &Plan, &Vec<Vec<usize>>) -> Vec<LoadedFile>,
 {
    is_load_of_groups_by(access, single_thread, single_thread, groups, events)
}

/// Whether `groups` is the one group that holds every log that is found under `dir`.
pub open spec fn is_directory_group<Collect>(
    collect_files: Collect,
    dir: &String,
    groups: &Vec<CodexUsageGroup>,
) -> bool where Collect: Fn(&String) -> Vec<SessionFile> {
    exists|files: Vec<SessionFile>|
        {
            &&& #[trigger] collect_files.ensures((dir,), files)
            &&& sources::group_views(groups@) == seq![
                sources::GroupView { dir: dir@, files: files@ },
            ]
        }
}

/// Whether a load of the logs under `dir` can give `events`, with the logs read one after another
/// where `in_order` holds.
pub open spec fn is_directory_load_by<Plan, Prefix, Collect, Planner, Lookup, Visit, Work>(
    access: CodexLogAccess<Collect, Planner, Lookup, Visit, Work>,
    single_thread: bool,
    in_order: bool,
    dir: &String,
    events: Seq<CodexTokenUsageEvent>,
) -> bool where
    Collect: Fn(&String) -> Vec<SessionFile>,
    Planner: Fn(&Vec<CodexUsageGroup>, bool) -> Plan,
    Lookup: Fn(&Plan, &SessionFile) -> Prefix,
    Visit: Fn(&String, &SessionFile, Prefix) -> SessionVisit,
    Work: Fn(&String, &Vec<SessionFile>, &Plan, &Vec<Vec<usize>>) -> Vec<LoadedFile>,
 {
    exists|groups: Vec<CodexUsageGroup>|
        is_directory_group(access.collect_files, dir, &groups) && #[trigger] is_load_of_groups_by(
            access,
            single_thread,
            in_order,
            &groups,
            events,
        )
}

/// Whether a load of the logs under `dir` can give `events`: they are the load of the one group
/// that holds every log that is found there.
pub open spec fn is_directory_load<Plan, Prefix, Collect, Planner, Lookup, Visit, Work>(
    access: CodexLogAccess<Collect, Planner, Lookup, Visit, Work>,
    single_thread: bool,
    dir: &String,
    events: Seq<CodexTokenUsageEvent>,
) -> bool where
    Collect: Fn(&String) -> Vec<SessionFile>,
    Planner: Fn(&Vec<CodexUsageGroup>, bool) -> Plan,
    Lookup: Fn(&Plan, &SessionFile) -> Prefix,
    Visit: Fn(&String, &SessionFile, Prefix) -> SessionVisit,
    Work: Fn(&String, &Vec<SessionFile>, &Plan, &Vec<Vec<usize>>) -> Vec<LoadedFile>,
 {
    is_directory_load_by(access, single_thread, single_thread, dir, events)
}

/// Whether the listings are what is found under the directories of the sources.
pub open spec fn are_listings<Collect>(
    collect_files: Collect,
    usage_sources: Seq<CodexUsageSource>,
    listings: Seq<Vec<SessionFile>>,
) -> bool where Collect: Fn(&String) -> Vec<SessionFile> {
    &&& listings.len() == usage_sources.len()
    &&& forall|i: int|
        0 <= i < listings.len() ==> collect_files.ensures(
            (&usage_sources[i].dir,),
            #[trigger] listings[i],
        )
}

/// Whether `groups` holds what is found under the directories of the sources, without the logs
/// that a source of the same home lists before under the same relative path.
pub open spec fn are_deduped_groups<Collect>(
    collect_files: Collect,
    usage_sources: Seq<CodexUsageSource>,
    groups: &Vec<CodexUsageGroup>,
) -> bool where Collect: Fn(&String) -> Vec<SessionFile> {
    exists|listings: Seq<Vec<SessionFile>>|
        {
            &&& #[trigger] are_listings(collect_files, usage_sources, listings)
            &&& sources::group_views(groups@) == sources::deduped_groups(usage_sources, listings)
        }
}

/// Whether `groups` is what is read of the sources: of a single source, every log that is found
/// under its directory; of several, the logs without those that a source of the same home lists
/// before under the same relative path.
pub open spec fn are_source_groups<Collect>(
    collect_files: Collect,
    usage_sources: Seq<CodexUsageSource>,
    groups: &Vec<CodexUsageGroup>,
) -> bool where Collect: Fn(&String) -> Vec<SessionFile> {
    if usage_sources.len() == 1 {
        is_directory_group(collect_files, &usage_sources[0].dir, groups)
    } else {
        are_deduped_groups(collect_files, usage_sources, groups)
    }
}

/// Whether a load of `usage_sources` can give `events`, with the logs of each source read one after
/// another where `in_order` holds.
pub open spec fn is_sources_load_by<Plan, Prefix, Collect, Planner, Lookup, Visit, Work>(
    access: CodexLogAccess<Collect, Planner, Lookup, Visit, Work>,
    single_thread: bool,
    in_order: bool,
    usage_sources: Seq<CodexUsageSource>,
    events: Seq<CodexTokenUsageEvent>,
) -> bool where
    Collect: Fn(&String) -> Vec<SessionFile>,
    Planner: Fn(&Vec<CodexUsageGroup>, bool) -> Plan,
    Lookup: Fn(&Plan, &SessionFile) -> Prefix,
    Visit: Fn(&String, &SessionFile, Prefix) -> SessionVisit,
    Work: Fn(&String, &Vec<SessionFile>, &Plan, &Vec<Vec<usize>>) -> Vec<LoadedFile>,
 {
    exists|groups: Vec<CodexUsageGroup>|
        are_source_groups(access.collect_files, usage_sources, &groups)
            && #[trigger] is_load_of_groups_by(access, single_thread, in_order, &groups, events)
}

/// Whether a load of `usage_sources` can give `events`: a single source is loaded as a directory;
/// of several, a log is left out where a source before it, of the same home, has the same relative
/// path.
pub open spec fn is_sources_load<Plan, Prefix, Collect, Planner, Lookup, Visit, Work>(
    access: CodexLogAccess<Collect, Planner, Lookup, Visit, Work>,
    single_thread: bool,
    usage_sources: Seq<CodexUsageSource>,
    events: Seq<CodexTokenUsageEvent>,
) -> bool where
    Collect: Fn(&String) -> Vec<SessionFile>,
    Planner: Fn(&Vec<CodexUsageGroup>, bool) -> Plan,
    Lookup: Fn(&Plan, &SessionFile) -> Prefix,
    Visit: Fn(&String, &SessionFile, Prefix) -> SessionVisit,
    Work: Fn(&String, &Vec<SessionFile>, &Plan, &Vec<Vec<usize>>) -> Vec<LoadedFile>,
 {
    is_sources_load_by(access, single_thread, single_thread, usage_sources, events)
}

/// Reads the logs of a group.
fn read_group<Plan, Prefix, Collect, Planner, Lookup, Visit, Work>(
    access: &CodexLogAccess<Collect, Planner, Lookup, Visit, Work>,
    single_thread: bool,
    group: &CodexUsageGroup,
    plan: &Plan,
) -> (events: Vec<CodexTokenUsageEvent>) where
    Collect: Fn(&String) -> Vec<SessionFile>,
    Planner: Fn(&Vec<CodexUsageGroup>, bool) -> Plan,
    Lookup: Fn(&Plan, &SessionFile) -> Prefix,
    Visit: Fn(&String, &SessionFile, Prefix) -> SessionVisit,
    Work: Fn(&String, &Vec<SessionFile>, &Plan, &Vec<Vec<usize>>) -> Vec<LoadedFile>,

    requires
        is_usable(*access),
    ensures
        is_group_reading(*access, single_thread, group, plan, events@),
        workers_read_their_chunks(*access) ==> is_group_reading(
            *access,
            true,
            group,
            plan,
            events@,
        ),
{
    proof {
        if workers_read_their_chunks(*access) {
            assert(reading::do_workers_read(
                access.replay_prefix,
                access.visit_file,
                access.run_workers,
                &group.dir,
                &group.files,
                plan,
            ));
        }
    }
    if single_thread {
        reading::read_codex_session_files_in_order(
            &access.replay_prefix,
            &access.visit_file,
            &group.dir,
            &group.files,
            plan,
        )
    } else {
        reading::read_codex_session_files_parallel(
            &access.replay_prefix,
            &access.visit_file,
            &access.run_workers,
            access.available_parallelism,
            &group.dir,
            &group.files,
            plan,
        )
    }
}

/// Readings as mathematical values.
pub open spec fn reading_views(
    readings: Seq<Vec<CodexTokenUsageEvent>>,
) -> Seq<Seq<CodexTokenUsageEvent>> {
    readings.map_values(|reading: Vec<CodexTokenUsageEvent>| reading@)
}

/// Puts readings together in their order, and keeps the first copy of each event.
pub fn combine_readings(readings: Vec<Vec<CodexTokenUsageEvent>>) -> (events: Vec<
    CodexTokenUsageEvent,
>)
    ensures
        events@ == dedupe::deduped(reading_views(readings@).flatten()),
{
    let ghost all = readings@;
    let ghost views = reading_views(all);
    let mut events: Vec<CodexTokenUsageEvent> = Vec::new();
    for reading in iter: readings
        invariant
            iter.seq() == all,
            views == reading_views(all),
            events@ == views.take(iter.index()).flatten(),
    {
        let mut found = reading;
        proof {
            let at = iter.index();
            assert(views.take(at + 1) =~= views.take(at).push(found@));
            views.take(at).lemma_flatten_push(found@);
        }
        events.append(&mut found);
    }
    proof {
        assert(views.take(views.len() as int) =~= views);
    }
    dedupe::dedupe_codex_events(&mut events);
    events
}

/// Loads the logs of some groups.
fn load_groups<Plan, Prefix, Collect, Planner, Lookup, Visit, Work>(
    access: &CodexLogAccess<Collect, Planner, Lookup, Visit, Work>,
    single_thread: bool,
    groups: &Vec<CodexUsageGroup>,
) -> (events: Vec<CodexTokenUsageEvent>) where
    Collect: Fn(&String) -> Vec<SessionFile>,
    Planner: Fn(&Vec<CodexUsageGroup>, bool) -> Plan,
    Lookup: Fn(&Plan, &SessionFile) -> Prefix,
    Visit: Fn(&String, &SessionFile, Prefix) -> SessionVisit,
    Work: Fn(&String, &Vec<SessionFile>, &Plan, &Vec<Vec<usize>>) -> Vec<LoadedFile>,

    requires
        is_usable(*access),
    ensures
        is_load_of_groups(*access, single_thread, groups, events@),
        workers_read_their_chunks(*access) ==> is_load_of_groups_by(
            *access,
            single_thread,
            true,
            groups,
            events@,
        ),
{
    let plan = (access.plan_replay)(groups, single_thread);
    let mut readings: Vec<Vec<CodexTokenUsageEvent>> = Vec::with_capacity(groups.len());
    while readings.len() < groups.len()
        invariant
            is_usable(*access),
            readings@.len() <= groups@.len(),
            forall|i: int|
                0 <= i < readings@.len() ==> is_group_reading(
                    *access,
                    single_thread,
                    &groups@[i],
                    &plan,
                    (#[trigger] readings@[i])@,
                ),
            workers_read_their_chunks(*access) ==> forall|i: int|
                0 <= i < readings@.len() ==> is_group_reading(
                    *access,
                    true,
                    &groups@[i],
                    &plan,
                    (#[trigger] readings@[i])@,
                ),
        decreases groups@.len() - readings@.len(),
    {
        let found = read_group(access, single_thread, &groups[readings.len()], &plan);
        readings.push(found);
    }
    let ghost views = reading_views(readings@);
    let events = combine_readings(readings);
    proof {
        assert forall|i: int| 0 <= i < views.len() implies is_group_reading(
            *access,
            single_thread,
            &groups@[i],
            &plan,
            #[trigger] views[i],
        ) by {
            assert(views[i] == readings@[i]@);
        }
        assert(is_load_from(
            *access,
            single_thread,
            single_thread,
            groups,
            plan,
            views,
            events@,
        ));
        if workers_read_their_chunks(*access) {
            assert forall|i: int| 0 <= i < views.len() implies is_group_reading(
                *access,
                true,
                &groups@[i],
                &plan,
                #[trigger] views[i],
            ) by {
                assert(views[i] == readings@[i]@);
            }
            assert(is_load_from(*access, single_thread, true, groups, plan, views, events@));
        }
    }
    events
}

/// Loads the token usage that the session logs under a directory record. It does not fail, whatever
/// the type of failures.
pub fn load_codex_events_from_directory<
    Failure,
    Plan,
    Prefix,
    Collect,
    Planner,
    Lookup,
    Visit,
    Work,
>(
    access: &CodexLogAccess<Collect, Planner, Lookup, Visit, Work>,
    sessions_dir: &String,
    single_thread: bool,
) -> (loaded: Result<Vec<CodexTokenUsageEvent>, Failure>) where
    Collect: Fn(&String) -> Vec<SessionFile>,
    Planner: Fn(&Vec<CodexUsageGroup>, bool) -> Plan,
    Lookup: Fn(&Plan, &SessionFile) -> Prefix,
    Visit: Fn(&String, &SessionFile, Prefix) -> SessionVisit,
    Work: Fn(&String, &Vec<SessionFile>, &Plan, &Vec<Vec<usize>>) -> Vec<LoadedFile>,

    requires
        is_usable(*access),
    ensures
        loaded is Ok,
        is_directory_load(*access, single_thread, sessions_dir, loaded->Ok_0@),
        workers_read_their_chunks(*access) ==> is_directory_load_by(
            *access,
            single_thread,
            true,
            sessions_dir,
            loaded->Ok_0@,
        ),
{
    let files = (access.collect_files)(sessions_dir);
    let ghost found = files;
    let mut groups: Vec<CodexUsageGroup> = Vec::with_capacity(1);
    groups.push(CodexUsageGroup { dir: sessions_dir.clone(), files });
    proof {
        assert(sources::group_views(groups@) =~= seq![
            sources::GroupView { dir: sessions_dir@, files: found@ },
        ]);
        assert(is_directory_group(access.collect_files, sessions_dir, &groups));
    }
    Ok(load_groups(access, single_thread, &groups))
}

/// Loads the token usage that the session logs of some sources record. It does not fail, whatever
/// the type of failures.
pub fn load_codex_events_from_sources<Failure, Plan, Prefix, Collect, Planner, Lookup, Visit, Work>(
    access: &CodexLogAccess<Collect, Planner, Lookup, Visit, Work>,
    usage_sources: &Vec<CodexUsageSource>,
    single_thread: bool,
) -> (loaded: Result<Vec<CodexTokenUsageEvent>, Failure>) where
    Collect: Fn(&String) -> Vec<SessionFile>,
    Planner: Fn(&Vec<CodexUsageGroup>, bool) -> Plan,
    Lookup: Fn(&Plan, &SessionFile) -> Prefix,
    Visit: Fn(&String, &SessionFile, Prefix) -> SessionVisit,
    Work: Fn(&String, &Vec<SessionFile>, &Plan, &Vec<Vec<usize>>) -> Vec<LoadedFile>,

    requires
        is_usable(*access),
    ensures
        loaded is Ok,
        is_sources_load(*access, single_thread, usage_sources@, loaded->Ok_0@),
        workers_read_their_chunks(*access) ==> is_sources_load_by(
            *access,
            single_thread,
            true,
            usage_sources@,
            loaded->Ok_0@,
        ),
{
    if usage_sources.len() == 1 {
        return load_codex_events_from_directory(access, &usage_sources[0].dir, single_thread);
    }
    let mut listings: Vec<Vec<SessionFile>> = Vec::with_capacity(usage_sources.len());
    while listings.len() < usage_sources.len()
        invariant
            is_usable(*access),
            listings@.len() <= usage_sources@.len(),
            forall|i: int|
                0 <= i < listings@.len() ==> access.collect_files.ensures(
                    (&usage_sources@[i].dir,),
                    #[trigger] listings@[i],
                ),
        decreases usage_sources@.len() - listings@.len(),
    {
        let listing = (access.collect_files)(&usage_sources[listings.len()].dir);
        listings.push(listing);
    }
    let ghost listed = listings@;
    let groups = sources::collect_deduped_codex_usage_files(usage_sources, listings);
    proof {
        assert(are_listings(access.collect_files, usage_sources@, listed));
        assert(are_deduped_groups(access.collect_files, usage_sources@, &groups));
    }
    Ok(load_groups(access, single_thread, &groups))
}

/// Loads the token usage of the sources that were found, or passes on why none were.
pub fn load_codex_events_inner<Failure, Plan, Prefix, Collect, Planner, Lookup, Visit, Work>(
    access: &CodexLogAccess<Collect, Planner, Lookup, Visit, Work>,
    usage_sources: Result<Vec<CodexUsageSource>, Failure>,
    shared: &SharedArgs,
) -> (loaded: Result<Vec<CodexTokenUsageEvent>, Failure>) where
    Collect: Fn(&String) -> Vec<SessionFile>,
    Planner: Fn(&Vec<CodexUsageGroup>, bool) -> Plan,
    Lookup: Fn(&Plan, &SessionFile) -> Prefix,
    Visit: Fn(&String, &SessionFile, Prefix) -> SessionVisit,
    Work: Fn(&String, &Vec<SessionFile>, &Plan, &Vec<Vec<usize>>) -> Vec<LoadedFile>,

    requires
        is_usable(*access),
    ensures
        match usage_sources {
            Ok(found) => {
                &&& loaded is Ok
                &&& is_sources_load(*access, shared.single_thread, found@, loaded->Ok_0@)
                &&& workers_read_their_chunks(*access) ==> is_sources_load_by(
                    *access,
                    shared.single_thread,
                    true,
                    found@,
                    loaded->Ok_0@,
                )
            },
            Err(error) => loaded == Err::<Vec<CodexTokenUsageEvent>, Failure>(error),
        },
{
    match usage_sources {
        Ok(found) => load_codex_events_from_sources(access, &found, shared.single_thread),
        Err(error) => Err(error),
    }
}

/// Loads the token usage of the sources that were found: it fails if and only if finding them
/// failed, with the same error.
pub fn load_codex_events<Failure, Plan, Prefix, Collect, Planner, Lookup, Visit, Work>(
    access: &CodexLogAccess<Collect, Planner, Lookup, Visit, Work>,
    usage_sources: Result<Vec<CodexUsageSource>, Failure>,
    shared: &SharedArgs,
) -> (loaded: Result<Vec<CodexTokenUsageEvent>, Failure>) where
    Collect: Fn(&String) -> Vec<SessionFile>,
    Planner: Fn(&Vec<CodexUsageGroup>, bool) -> Plan,
    Lookup: Fn(&Plan, &SessionFile) -> Prefix,
    Visit: Fn(&String, &SessionFile, Prefix) -> SessionVisit,
    Work: Fn(&String, &Vec<SessionFile>, &Plan, &Vec<Vec<usize>>) -> Vec<LoadedFile>,

    requires
        is_usable(*access),
    ensures
        match usage_sources {
            Ok(found) => {
                &&& loaded is Ok
                &&& is_sources_load(*access, shared.single_thread, found@, loaded->Ok_0@)
                &&& workers_read_their_chunks(*access) ==> is_sources_load_by(
                    *access,
                    shared.single_thread,
                    true,
                    found@,
                    loaded->Ok_0@,
                )
            },
            Err(error) => loaded == Err::<Vec<CodexTokenUsageEvent>, Failure>(error),
        },
{
    load_codex_events_inner(access, usage_sources, shared)
}

} // verus!

//! Laws of what the operations give, in the terms of what they are handed.

use vstd::prelude::*;

use crate::dedupe;
use crate::event::CodexTokenUsageEvent;
use crate::laws::workers;
use crate::loader;
use crate::loader::CodexLogAccess;
use crate::reading;
use crate::reading::{LoadedFile, SessionVisit};
use crate::schedule;
use crate::sources;
use crate::sources::{CodexUsageGroup, CodexUsageSource, SessionFile};

verus! {

/// There are as many workers as can run at once, but no more than there are logs, and no more than
/// one where it is not known how many can run.
pub proof fn law_workers_are_few_enough(available: Option<usize>, files: nat)
    ensures
        schedule::worker_count_spec(available, files) <= files,
        available is Some ==> schedule::worker_count_spec(available, files) <= available->Some_0,
        available is None ==> schedule::worker_count_spec(available, files) <= 1,
        schedule::worker_count_spec(available, files) == files || schedule::worker_count_spec(
            available,
            files,
        ) == match available {
            Some(count) => count as nat,
            None => 1,
        },
{
}

/// There is a chunk for each worker, and the chunks hold indexes of logs only.
pub proof fn law_each_worker_has_a_chunk(
    files: &Vec<SessionFile>,
    workers: nat,
    chunks: Seq<Vec<usize>>,
)
    requires
        schedule::is_chunking(files@, workers, chunks),
    ensures
        chunks.len() == workers,
        forall|chunk: int, slot: int|
            #![trigger chunks[chunk]@[slot]]
            0 <= chunk < chunks.len() && 0 <= slot < chunks[chunk]@.len() ==> chunks[chunk]@[slot]
                < files@.len(),
{
}

/// Each log is in one chunk, once.
pub proof fn law_each_log_is_in_one_chunk(
    files: &Vec<SessionFile>,
    workers: nat,
    chunks: Seq<Vec<usize>>,
    index: int,
) -> (place: (int, int))
    requires
        schedule::is_chunking(files@, workers, chunks),
        0 <= index < files@.len(),
    ensures
        0 <= place.0 < chunks.len(),
        0 <= place.1 < chunks[place.0]@.len(),
        chunks[place.0]@[place.1] == index,
        forall|chunk: int, slot: int|
            #![trigger chunks[chunk]@[slot]]
            0 <= chunk < chunks.len() && 0 <= slot < chunks[chunk]@.len() && chunks[chunk]@[slot]
                == index ==> chunk == place.0 && slot == place.1,
{
    assert(index < files.len());
    assert(schedule::in_some_chunk(chunks, index as usize));
    choose|chunk: int, slot: int|
        #![trigger chunks[chunk]@[slot]]
        0 <= chunk < chunks.len() && 0 <= slot < chunks[chunk]@.len() && chunks[chunk]@[slot]
            == index as usize
}

/// No chunk has more bytes than another and one of the logs together.
pub proof fn law_chunks_are_of_like_size(
    files: &Vec<SessionFile>,
    workers: nat,
    chunks: Seq<Vec<usize>>,
    heavy: int,
    light: int,
) -> (largest: int)
    requires
        schedule::is_chunking(files@, workers, chunks),
        files@.len() > 0,
        0 <= heavy < chunks.len(),
        0 <= light < chunks.len(),
    ensures
        0 <= largest < files@.len(),
        chunks[heavy]@.fold_left(
            0int,
            |bytes: int, index: usize| bytes + files@[index as int].size,
        ) <= chunks[light]@.fold_left(
            0int,
            |bytes: int, index: usize| bytes + files@[index as int].size,
        ) + files@[largest].size,
{
    lemma_load_is_sum(files@, chunks[heavy]@);
    lemma_load_is_sum(files@, chunks[light]@);
    lemma_largest_log(files@)
}

/// Chunks as mathematical values hold the same indexes, in the same order.
pub proof fn law_chunks_keep_their_order(chunks: Seq<Vec<usize>>)
    ensures
        schedule::chunk_views(chunks).len() == chunks.len(),
        forall|chunk: int|
            0 <= chunk < chunks.len() ==> (#[trigger] schedule::chunk_views(chunks)[chunk])
                == chunks[chunk]@,
{
}

/// The logs are shared out in their order. At first every chunk is empty; then each log is added at
/// the end of the chunk that has the fewest bytes so far, the first such chunk where there are
/// several.
///
/// The law hands back the chunk that the log with the given index goes to.
pub proof fn law_each_log_goes_to_the_lightest_chunk(
    files: Seq<SessionFile>,
    workers: nat,
    index: nat,
) -> (chunk: int)
    requires
        workers > 0,
        index <= usize::MAX,
    ensures
        schedule::chunks_by_size(files, workers, 0).len() == workers,
        forall|other: int|
            0 <= other < workers ==> (#[trigger] schedule::chunks_by_size(
                files,
                workers,
                0,
            )[other]).len() == 0,
        ({
            let before = schedule::chunks_by_size(files, workers, index);
            let after = schedule::chunks_by_size(files, workers, index + 1);
            let bytes = |indexes: Seq<usize>|
                indexes.fold_left(0int, |sum: int, at: usize| sum + files[at as int].size);
            &&& before.len() == workers
            &&& after.len() == workers
            &&& 0 <= chunk < workers
            &&& after[chunk] == before[chunk].push(index as usize)
            &&& forall|other: int|
                0 <= other < workers && other != chunk ==> #[trigger] after[other] == before[other]
            &&& forall|other: int|
                0 <= other < workers ==> bytes(before[chunk]) <= bytes(#[trigger] before[other])
            &&& forall|other: int|
                0 <= other < chunk ==> bytes(before[chunk]) < bytes(#[trigger] before[other])
        }),
{
    let before = schedule::chunks_by_size(files, workers, index);
    lemma_count_of_chunks(files, workers, index);
    let found = lemma_lightest_exists(files, before, workers as int);
    assert(schedule::is_lightest(files, before, found));
    let chunk = choose|chunk: int| schedule::is_lightest(files, before, chunk);
    assert forall|other: int| 0 <= other < workers implies schedule::chunk_load(
        files,
        #[trigger] before[other],
    ) == before[other].fold_left(0int, |sum: int, at: usize| sum + files[at as int].size) by {
        lemma_load_is_sum(files, before[other]);
        assert((|sum: int, at: usize| sum + files[at as int].size) =~= (
        |bytes: int, index: usize| bytes + files[index as int].size));
    }
    assert(schedule::chunk_load(files, before[chunk]) == before[chunk].fold_left(
        0int,
        |sum: int, at: usize| sum + files[at as int].size,
    ));
    chunk
}

proof fn lemma_count_of_chunks(files: Seq<SessionFile>, workers: nat, count: nat)
    requires
        workers > 0,
    ensures
        schedule::chunks_by_size(files, workers, count).len() == workers,
    decreases count,
{
    if count > 0 {
        let before = schedule::chunks_by_size(files, workers, (count - 1) as nat);
        lemma_count_of_chunks(files, workers, (count - 1) as nat);
        let found = lemma_lightest_exists(files, before, workers as int);
        assert(schedule::is_lightest(files, before, found));
    }
}

/// The first of those of the first `count` chunks that have the fewest bytes.
proof fn lemma_lightest_exists(
    files: Seq<SessionFile>,
    chunks: Seq<Seq<usize>>,
    count: int,
) -> (chunk: int)
    requires
        0 < count <= chunks.len(),
    ensures
        schedule::is_lightest(files, chunks.take(count), chunk),
        count == chunks.len() ==> schedule::is_lightest(files, chunks, chunk),
    decreases count,
{
    let some = chunks.take(count);
    assert(count == chunks.len() ==> some =~= chunks);
    if count == 1 {
        0
    } else {
        let before = chunks.take(count - 1);
        let best = lemma_lightest_exists(files, chunks, count - 1);
        assert forall|other: int| 0 <= other < count - 1 implies #[trigger] some[other]
            == before[other] by {}
        if schedule::chunk_load(files, chunks[count - 1]) < schedule::chunk_load(
            files,
            chunks[best],
        ) {
            count - 1
        } else {
            best
        }
    }
}

proof fn lemma_load_is_sum(files: Seq<SessionFile>, chunk: Seq<usize>)
    ensures
        schedule::chunk_load(files, chunk) == chunk.fold_left(
            0int,
            |bytes: int, index: usize| bytes + files[index as int].size,
        ),
    decreases chunk.len(),
{
    if chunk.len() > 0 {
        lemma_load_is_sum(files, chunk.drop_last());
    }
}

proof fn lemma_largest_log(files: Seq<SessionFile>) -> (largest: int)
    requires
        files.len() > 0,
    ensures
        0 <= largest < files.len(),
        files[largest].size == schedule::largest_size(files),
    decreases files.len(),
{
    let before = files.drop_last();
    assert(before.len() == 0 ==> schedule::largest_size(before) == 0);
    if before.len() > 0 && files.last().size as nat <= schedule::largest_size(before) {
        lemma_largest_log(before)
    } else {
        files.len() - 1
    }
}

/// The groups of some sources are of their directories, in their order. Each holds the logs that
/// its source lists, in their order, without those of which a source of the same home lists the
/// relative path before: an earlier source, or the source itself further up.
///
/// The law hands back where in its listing each log of the group of `source` stands.
pub proof fn law_each_path_of_a_home_is_read_once(
    usage_sources: Seq<CodexUsageSource>,
    listings: Seq<Vec<SessionFile>>,
    groups: Seq<CodexUsageGroup>,
    source: int,
) -> (positions: Seq<int>)
    requires
        listings.len() == usage_sources.len(),
        sources::group_views(groups) == sources::deduped_groups(usage_sources, listings),
        0 <= source < usage_sources.len(),
    ensures
        groups.len() == usage_sources.len(),
        groups[source].dir@ == usage_sources[source].dir@,
        positions.len() == groups[source].files@.len(),
        forall|k: int|
            0 <= k < positions.len() ==> 0 <= #[trigger] positions[k] < listings[source]@.len()
                && groups[source].files@[k] == listings[source]@[positions[k]],
        forall|j: int, k: int|
            0 <= j < k < positions.len() ==> #[trigger] positions[j] < #[trigger] positions[k],
        forall|file: int|
            0 <= file < listings[source]@.len() ==> (#[trigger] positions.contains(file)
                <==> forall|at: int, other: int|
                #![trigger listings[at]@[other]]
                0 <= at <= source && 0 <= other < listings[at]@.len() && (at < source || other
                    < file) ==> usage_sources[at].home@ != usage_sources[source].home@
                    || listings[at]@[other].relative_path@
                    != listings[source]@[file].relative_path@),
{
    let views = sources::group_views(groups);
    let count = listings[source]@.len() as int;
    assert(views.len() == groups.len());
    assert(views[source] == groups[source]@);
    let positions = lemma_kept_positions(usage_sources, listings, source, count);
    let home = usage_sources[source].home@;
    assert forall|file: int| 0 <= file < count implies (#[trigger] positions.contains(file)
        <==> forall|at: int, other: int|
        #![trigger listings[at]@[other]]
        0 <= at <= source && 0 <= other < listings[at]@.len() && (at < source || other < file)
            ==> usage_sources[at].home@ != home || listings[at]@[other].relative_path@
            != listings[source]@[file].relative_path@) by {
        let path = listings[source]@[file].relative_path@;
        if sources::is_listed(usage_sources, listings, source, file, home, path) {
            let (at, other) = choose|at: int, other: int|
                #![trigger listings[at]@[other]]
                0 <= at <= source && 0 <= other < (if at < source {
                    listings[at]@.len() as int
                } else {
                    file
                }) && usage_sources[at].home@ == home && listings[at]@[other].relative_path@
                    == path;
            assert(listings[at]@[other].relative_path@ == path);
        }
    }
    positions
}

/// Where the kept files of a source stand in its listing.
proof fn lemma_kept_positions(
    usage_sources: Seq<CodexUsageSource>,
    listings: Seq<Vec<SessionFile>>,
    source: int,
    count: int,
) -> (positions: Seq<int>)
    requires
        0 <= count <= listings[source]@.len(),
    ensures
        positions.len() == sources::kept_files(usage_sources, listings, source, count).len(),
        forall|k: int|
            0 <= k < positions.len() ==> 0 <= #[trigger] positions[k] < count
                && sources::kept_files(usage_sources, listings, source, count)[k]
                == listings[source]@[positions[k]],
        forall|j: int, k: int|
            0 <= j < k < positions.len() ==> #[trigger] positions[j] < #[trigger] positions[k],
        forall|file: int|
            0 <= file < count ==> (#[trigger] positions.contains(file) <==> !sources::is_listed(
                usage_sources,
                listings,
                source,
                file,
                usage_sources[source].home@,
                listings[source]@[file].relative_path@,
            )),
    decreases count,
{
    if count == 0 {
        Seq::empty()
    } else {
        let at = count - 1;
        let before = lemma_kept_positions(usage_sources, listings, source, at);
        let file = listings[source]@[at];
        if sources::is_listed(
            usage_sources,
            listings,
            source,
            at,
            usage_sources[source].home@,
            file.relative_path@,
        ) {
            before
        } else {
            let positions = before.push(at);
            assert forall|wanted: int| 0 <= wanted < count implies (#[trigger] positions.contains(
                wanted,
            ) <==> !sources::is_listed(
                usage_sources,
                listings,
                source,
                wanted,
                usage_sources[source].home@,
                listings[source]@[wanted].relative_path@,
            )) by {
                if wanted < at {
                    if before.contains(wanted) {
                        let k = choose|k: int| 0 <= k < before.len() && before[k] == wanted;
                        assert(positions[k] == wanted);
                    }
                    if positions.contains(wanted) {
                        let k = choose|k: int| 0 <= k < positions.len() && positions[k] == wanted;
                        assert(before[k] == wanted);
                    }
                } else {
                    assert(positions[before.len() as int] == wanted);
                }
            }
            positions
        }
    }
}

/// A reading of a log is all that a visit of it comes across, whether or not the visit reaches the
/// end of the log. The visit is of the log, under its directory, and is started with what the plan
/// has for the log.
pub proof fn law_reading_is_a_visit<Plan, Prefix, Lookup, Visit>(
    replay_prefix: Lookup,
    visit_file: Visit,
    dir: &String,
    file: &SessionFile,
    plan: &Plan,
    events: Seq<CodexTokenUsageEvent>,
) -> (visited: (Prefix, SessionVisit)) where
    Lookup: Fn(&Plan, &SessionFile) -> Prefix,
    Visit: Fn(&String, &SessionFile, Prefix) -> SessionVisit,

    requires
        reading::is_file_reading(replay_prefix, visit_file, dir, file, plan, events),
    ensures
        replay_prefix.ensures((plan, file), visited.0),
        visit_file.ensures((dir, file, visited.0), visited.1),
        visited.1.events@ == events,
{
    choose|prefix: Prefix, visit: SessionVisit|
        replay_prefix.ensures((plan, file), prefix) && #[trigger] visit_file.ensures(
            (dir, file, prefix),
            visit,
        ) && visit.events@ == events
}

/// A reading of some logs is what visits of them come across, one visit of each log, put together
/// in the order of the logs.
pub proof fn law_reading_is_visits_in_order<Plan, Prefix, Lookup, Visit>(
    replay_prefix: Lookup,
    visit_file: Visit,
    dir: &String,
    files: &Vec<SessionFile>,
    plan: &Plan,
    events: Seq<CodexTokenUsageEvent>,
) -> (visited: Seq<(Prefix, SessionVisit)>) where
    Lookup: Fn(&Plan, &SessionFile) -> Prefix,
    Visit: Fn(&String, &SessionFile, Prefix) -> SessionVisit,

    requires
        reading::is_in_order_reading(replay_prefix, visit_file, dir, files, plan, events),
    ensures
        visited.len() == files@.len(),
        forall|i: int|
            0 <= i < visited.len() ==> replay_prefix.ensures(
                (plan, &files@[i]),
                (#[trigger] visited[i]).0,
            ) && visit_file.ensures((dir, &files@[i], visited[i].0), visited[i].1),
        events == visited.map_values(
            |visited: (Prefix, SessionVisit)| visited.1.events@,
        ).flatten(),
{
    let readings = choose|readings: Seq<Seq<CodexTokenUsageEvent>>|
        {
            &&& readings.len() == files@.len()
            &&& forall|i: int|
                0 <= i < readings.len() ==> reading::is_file_reading(
                    replay_prefix,
                    visit_file,
                    dir,
                    &files@[i],
                    plan,
                    #[trigger] readings[i],
                )
            &&& #[trigger] readings.flatten() == events
        };
    let visited = Seq::new(
        files@.len(),
        |i: int|
            choose|prefix: Prefix, visit: SessionVisit|
                replay_prefix.ensures((plan, &files@[i]), prefix) && #[trigger] visit_file.ensures(
                    (dir, &files@[i], prefix),
                    visit,
                ) && visit.events@ == readings[i],
    );
    assert forall|i: int| 0 <= i < visited.len() implies replay_prefix.ensures(
        (plan, &files@[i]),
        (#[trigger] visited[i]).0,
    ) && visit_file.ensures((dir, &files@[i], visited[i].0), visited[i].1)
        && visited[i].1.events@ == readings[i] by {
        assert(reading::is_file_reading(
            replay_prefix,
            visit_file,
            dir,
            &files@[i],
            plan,
            readings[i],
        ));
    }
    assert(visited.map_values(|visited: (Prefix, SessionVisit)| visited.1.events@) =~= readings);
    visited
}

/// A worker hands back, for each index of its chunk in turn, the index and what a visit of the log
/// with that index comes across.
pub proof fn law_worker_reads_its_chunk<Plan, Prefix, Lookup, Visit>(
    replay_prefix: Lookup,
    visit_file: Visit,
    dir: &String,
    files: &Vec<SessionFile>,
    plan: &Plan,
    chunk: Seq<usize>,
    loaded: Seq<LoadedFile>,
) where
    Lookup: Fn(&Plan, &SessionFile) -> Prefix,
    Visit: Fn(&String, &SessionFile, Prefix) -> SessionVisit,

    requires
        reading::is_chunk_reading(replay_prefix, visit_file, dir, files, plan, chunk, loaded),
    ensures
        loaded.len() == chunk.len(),
        forall|i: int|
            0 <= i < loaded.len() ==> (#[trigger] loaded[i]).0 == chunk[i] && exists|
                prefix: Prefix,
                visit: SessionVisit,
            |
                replay_prefix.ensures((plan, &files@[chunk[i] as int]), prefix)
                    && #[trigger] visit_file.ensures(
                    (dir, &files@[chunk[i] as int], prefix),
                    visit,
                ) && visit.events@ == loaded[i].1@,
{
    assert forall|i: int| 0 <= i < loaded.len() implies (#[trigger] loaded[i]).0 == chunk[i]
        && exists|prefix: Prefix, visit: SessionVisit|
        replay_prefix.ensures((plan, &files@[chunk[i] as int]), prefix)
            && #[trigger] visit_file.ensures((dir, &files@[chunk[i] as int], prefix), visit)
            && visit.events@ == loaded[i].1@ by {
        let visited = law_reading_is_a_visit(
            replay_prefix,
            visit_file,
            dir,
            &files@[chunk[i] as int],
            plan,
            loaded[i].1@,
        );
        assert(visit_file.ensures((dir, &files@[chunk[i] as int], visited.0), visited.1));
    }
}

/// What workers loaded is put into the order of the logs: what was handed back last for a log is
/// what counts of it, and a log of which nothing was handed back has no events.
///
/// The law hands back what counts of each log.
pub proof fn law_loaded_files_are_merged_in_order(count: nat, loaded: Seq<LoadedFile>) -> (
    by_file: Seq<Seq<CodexTokenUsageEvent>>)
    ensures
        by_file.len() == count,
        reading::merged_files(count, loaded) == by_file.flatten(),
        forall|i: int|
            0 <= i < loaded.len() && (forall|later: int|
                i < later < loaded.len() ==> (#[trigger] loaded[later]).0 != loaded[i].0)
                && loaded[i].0 < count ==> by_file[(#[trigger] loaded[i]).0 as int]
                == loaded[i].1@,
        forall|index: int|
            0 <= index < count && (forall|i: int|
                0 <= i < loaded.len() ==> (#[trigger] loaded[i]).0 != index) ==> (
            #[trigger] by_file[index]).len() == 0,
{
    let by_file = Seq::new(count, |index: int| reading::loaded_last(loaded, index));
    assert forall|i: int|
        0 <= i < loaded.len() && (forall|later: int|
            i < later < loaded.len() ==> (#[trigger] loaded[later]).0 != loaded[i].0)
            && loaded[i].0 < count implies by_file[(#[trigger] loaded[i]).0 as int]
        == loaded[i].1@ by {
        let last = reading::lemma_loaded_last(loaded, i);
        assert(loaded[last].0 == loaded[i].0);
        assert(last == i);
    }
    assert forall|index: int|
        0 <= index < count && (forall|i: int|
            0 <= i < loaded.len() ==> (#[trigger] loaded[i]).0 != index) implies (
    #[trigger] by_file[index]).len() == 0 by {
        workers::lemma_never_loaded(loaded, index);
    }
    by_file
}

/// A reading by one thread, or of logs that one worker reads, or where no more than one can run, is
/// made of visits in the order of the logs.
pub proof fn law_group_is_read_in_order<Plan, Prefix, Collect, Planner, Lookup, Visit, Work>(
    access: CodexLogAccess<Collect, Planner, Lookup, Visit, Work>,
    single_thread: bool,
    group: &CodexUsageGroup,
    plan: &Plan,
    events: Seq<CodexTokenUsageEvent>,
) -> (visited: Seq<(Prefix, SessionVisit)>) where
    Collect: Fn(&String) -> Vec<SessionFile>,
    Planner: Fn(&Vec<CodexUsageGroup>, bool) -> Plan,
    Lookup: Fn(&Plan, &SessionFile) -> Prefix,
    Visit: Fn(&String, &SessionFile, Prefix) -> SessionVisit,
    Work: Fn(&String, &Vec<SessionFile>, &Plan, &Vec<Vec<usize>>) -> Vec<LoadedFile>,

    requires
        single_thread || group.files@.len() <= 1 || access.available_parallelism is None
            || access.available_parallelism->Some_0 <= 1,
        loader::is_group_reading(access, single_thread, group, plan, events),
    ensures
        visited.len() == group.files@.len(),
        forall|i: int|
            0 <= i < visited.len() ==> access.replay_prefix.ensures(
                (plan, &group.files@[i]),
                (#[trigger] visited[i]).0,
            ) && access.visit_file.ensures(
                (&group.dir, &group.files@[i], visited[i].0),
                visited[i].1,
            ),
        events == visited.map_values(
            |visited: (Prefix, SessionVisit)| visited.1.events@,
        ).flatten(),
{
    law_reading_is_visits_in_order(
        access.replay_prefix,
        access.visit_file,
        &group.dir,
        &group.files,
        plan,
        events,
    )
}

/// A reading by several threads is what the workers hand back that are handed the logs, their
/// directory, the plan and one chunk for each of them, put into the order of the logs.
///
/// The law hands back the chunks, and what the workers handed back.
pub proof fn law_group_is_read_by_workers<Plan, Prefix, Collect, Planner, Lookup, Visit, Work>(
    access: CodexLogAccess<Collect, Planner, Lookup, Visit, Work>,
    group: &CodexUsageGroup,
    plan: &Plan,
    events: Seq<CodexTokenUsageEvent>,
) -> (read: (Vec<Vec<usize>>, Vec<LoadedFile>)) where
    Collect: Fn(&String) -> Vec<SessionFile>,
    Planner: Fn(&Vec<CodexUsageGroup>, bool) -> Plan,
    Lookup: Fn(&Plan, &SessionFile) -> Prefix,
    Visit: Fn(&String, &SessionFile, Prefix) -> SessionVisit,
    Work: Fn(&String, &Vec<SessionFile>, &Plan, &Vec<Vec<usize>>) -> Vec<LoadedFile>,

    requires
        group.files@.len() > 1,
        access.available_parallelism is Some,
        access.available_parallelism->Some_0 > 1,
        loader::is_group_reading(access, false, group, plan, events),
    ensures
        schedule::is_chunking(
            group.files@,
            if access.available_parallelism->Some_0 < group.files@.len() {
                access.available_parallelism->Some_0 as nat
            } else {
                group.files@.len()
            },
            read.0@,
        ),
        access.run_workers.ensures((&group.dir, &group.files, plan, &read.0), read.1),
        events == reading::merged_files(group.files@.len(), read.1@),
{
    let files = &group.files;
    let workers = schedule::worker_count_spec(access.available_parallelism, files@.len());
    choose|chunks: Vec<Vec<usize>>, loaded: Vec<LoadedFile>|
        {
            &&& schedule::chunk_views(chunks@) == schedule::chunks_by_size(
                files@,
                workers,
                files@.len(),
            )
            &&& schedule::is_chunking(files@, workers, chunks@)
            &&& #[trigger] access.run_workers.ensures((&group.dir, files, plan, &chunks), loaded)
            &&& reading::merged_files(files@.len(), loaded@) == events
        }
}

/// Readings that are put together keep their order, and the order of their events.
pub proof fn law_readings_are_put_together_in_order(readings: Seq<Vec<CodexTokenUsageEvent>>)
    ensures
        loader::reading_views(readings).len() == readings.len(),
        forall|i: int|
            0 <= i < readings.len() ==> (#[trigger] loader::reading_views(readings)[i])
                == readings[i]@,
{
}

/// A load of a directory lists the directory, makes a plan for all that it lists, reads that by the
/// plan, and keeps the first copies of what it read.
///
/// The law hands back what is listed, the one group that is read, the plan, and what is read.
pub proof fn law_directory_load<Plan, Prefix, Collect, Planner, Lookup, Visit, Work>(
    access: CodexLogAccess<Collect, Planner, Lookup, Visit, Work>,
    single_thread: bool,
    dir: &String,
    events: Seq<CodexTokenUsageEvent>,
) -> (read: (Vec<SessionFile>, Vec<CodexUsageGroup>, Plan, Seq<CodexTokenUsageEvent>)) where
    Collect: Fn(&String) -> Vec<SessionFile>,
    Planner: Fn(&Vec<CodexUsageGroup>, bool) -> Plan,
    Lookup: Fn(&Plan, &SessionFile) -> Prefix,
    Visit: Fn(&String, &SessionFile, Prefix) -> SessionVisit,
    Work: Fn(&String, &Vec<SessionFile>, &Plan, &Vec<Vec<usize>>) -> Vec<LoadedFile>,

    requires
        loader::is_directory_load(access, single_thread, dir, events),
    ensures
        access.collect_files.ensures((dir,), read.0),
        read.1@.len() == 1,
        read.1@[0].dir@ == dir@,
        read.1@[0].files@ == read.0@,
        access.plan_replay.ensures((&read.1, single_thread), read.2),
        loader::is_group_reading(access, single_thread, &read.1@[0], &read.2, read.3),
        events == dedupe::deduped(read.3),
{
    let groups = choose|groups: Vec<CodexUsageGroup>|
        loader::is_directory_group(access.collect_files, dir, &groups)
            && #[trigger] loader::is_load_of_groups_by(
            access,
            single_thread,
            single_thread,
            &groups,
            events,
        );
    let files = choose|files: Vec<SessionFile>|
        {
            &&& #[trigger] access.collect_files.ensures((dir,), files)
            &&& sources::group_views(groups@) == seq![
                sources::GroupView { dir: dir@, files: files@ },
            ]
        };
    let (plan, readings) = choose|plan: Plan, readings: Seq<Seq<CodexTokenUsageEvent>>| #[trigger]
        loader::is_load_from(
            access,
            single_thread,
            single_thread,
            &groups,
            plan,
            readings,
            events,
        );
    let views = sources::group_views(groups@);
    assert(views.len() == groups@.len());
    assert(views[0] == groups@[0]@);
    readings.lemma_flatten_one_element();
    assert(loader::is_group_reading(access, single_thread, &groups@[0], &plan, readings[0]));
    (files, groups, plan, readings[0])
}

/// A load of a single source is a load of its directory.
pub proof fn law_single_source_load<Plan, Prefix, Collect, Planner, Lookup, Visit, Work>(
    access: CodexLogAccess<Collect, Planner, Lookup, Visit, Work>,
    single_thread: bool,
    usage_sources: Seq<CodexUsageSource>,
    events: Seq<CodexTokenUsageEvent>,
) where
    Collect: Fn(&String) -> Vec<SessionFile>,
    Planner: Fn(&Vec<CodexUsageGroup>, bool) -> Plan,
    Lookup: Fn(&Plan, &SessionFile) -> Prefix,
    Visit: Fn(&String, &SessionFile, Prefix) -> SessionVisit,
    Work: Fn(&String, &Vec<SessionFile>, &Plan, &Vec<Vec<usize>>) -> Vec<LoadedFile>,

    requires
        usage_sources.len() == 1,
    ensures
        loader::is_sources_load(access, single_thread, usage_sources, events)
            <==> loader::is_directory_load(
            access,
            single_thread,
            &usage_sources[0].dir,
            events,
        ),
{
    if loader::is_sources_load(access, single_thread, usage_sources, events) {
        let groups = choose|groups: Vec<CodexUsageGroup>|
            loader::are_source_groups(access.collect_files, usage_sources, &groups)
                && #[trigger] loader::is_load_of_groups_by(
                access,
                single_thread,
                single_thread,
                &groups,
                events,
            );
        assert(loader::is_directory_group(
            access.collect_files,
            &usage_sources[0].dir,
            &groups,
        ));
    }
    if loader::is_directory_load(access, single_thread, &usage_sources[0].dir, events) {
        let groups = choose|groups: Vec<CodexUsageGroup>|
            loader::is_directory_group(access.collect_files, &usage_sources[0].dir, &groups)
                && #[trigger] loader::is_load_of_groups_by(
                access,
                single_thread,
                single_thread,
                &groups,
                events,
            );
        assert(loader::are_source_groups(access.collect_files, usage_sources, &groups));
    }
}

/// A load of several sources, or of none, lists the directory of each, reads each path of a home
/// once, of the first source that lists it, makes one plan for all that it reads, reads the groups
/// by that plan, and keeps the first copies of what it read, in the order of the sources.
///
/// The law hands back what is listed, the groups that are read, the plan, and what is read of each
/// group.
pub proof fn law_sources_load<Plan, Prefix, Collect, Planner, Lookup, Visit, Work>(
    access: CodexLogAccess<Collect, Planner, Lookup, Visit, Work>,
    single_thread: bool,
    usage_sources: Seq<CodexUsageSource>,
    events: Seq<CodexTokenUsageEvent>,
) -> (read: (
    Seq<Vec<SessionFile>>,
    Vec<CodexUsageGroup>,
    Plan,
    Seq<Seq<CodexTokenUsageEvent>>,
)) where
    Collect: Fn(&String) -> Vec<SessionFile>,
    Planner: Fn(&Vec<CodexUsageGroup>, bool) -> Plan,
    Lookup: Fn(&Plan, &SessionFile) -> Prefix,
    Visit: Fn(&String, &SessionFile, Prefix) -> SessionVisit,
    Work: Fn(&String, &Vec<SessionFile>, &Plan, &Vec<Vec<usize>>) -> Vec<LoadedFile>,

    requires
        usage_sources.len() != 1,
        loader::is_sources_load(access, single_thread, usage_sources, events),
    ensures
        read.0.len() == usage_sources.len(),
        forall|i: int|
            0 <= i < read.0.len() ==> access.collect_files.ensures(
                (&usage_sources[i].dir,),
                #[trigger] read.0[i],
            ),
        read.1@.len() == usage_sources.len(),
        forall|i: int|
            0 <= i < read.1@.len() ==> (#[trigger] read.1@[i]).dir@ == usage_sources[i].dir@,
        forall|i: int, file: SessionFile|
            0 <= i < read.1@.len() ==> (#[trigger] read.1@[i].files@.contains(file)
                <==> exists|at: int|
                #![trigger read.0[i]@[at]]
                0 <= at < read.0[i]@.len() && read.0[i]@[at] == file && forall|
                    source: int,
                    other: int,
                |
                    #![trigger read.0[source]@[other]]
                    0 <= source <= i && 0 <= other < read.0[source]@.len() && (source < i || other
                        < at) ==> usage_sources[source].home@ != usage_sources[i].home@
                        || read.0[source]@[other].relative_path@ != file.relative_path@),
        access.plan_replay.ensures((&read.1, single_thread), read.2),
        read.3.len() == read.1@.len(),
        forall|i: int|
            0 <= i < read.3.len() ==> loader::is_group_reading(
                access,
                single_thread,
                &read.1@[i],
                &read.2,
                #[trigger] read.3[i],
            ),
        events == dedupe::deduped(read.3.flatten()),
{
    let groups = choose|groups: Vec<CodexUsageGroup>|
        loader::are_source_groups(access.collect_files, usage_sources, &groups)
            && #[trigger] loader::is_load_of_groups_by(
            access,
            single_thread,
            single_thread,
            &groups,
            events,
        );
    let listings = choose|listings: Seq<Vec<SessionFile>>|
        {
            &&& #[trigger] loader::are_listings(access.collect_files, usage_sources, listings)
            &&& sources::group_views(groups@) == sources::deduped_groups(usage_sources, listings)
        };
    let (plan, readings) = choose|plan: Plan, readings: Seq<Seq<CodexTokenUsageEvent>>| #[trigger]
        loader::is_load_from(
            access,
            single_thread,
            single_thread,
            &groups,
            plan,
            readings,
            events,
        );
    assert(sources::group_views(groups@).len() == groups@.len());
    assert forall|i: int| 0 <= i < groups@.len() implies (#[trigger] groups@[i]).dir@
        == usage_sources[i].dir@ by {
        let positions = law_each_path_of_a_home_is_read_once(
            usage_sources,
            listings,
            groups@,
            i,
        );
    }
    assert forall|i: int, file: SessionFile| 0 <= i < groups@.len() implies (
    #[trigger] groups@[i].files@.contains(file) <==> exists|at: int|
        #![trigger listings[i]@[at]]
        0 <= at < listings[i]@.len() && listings[i]@[at] == file && forall|
            source: int,
            other: int,
        |
            #![trigger listings[source]@[other]]
            0 <= source <= i && 0 <= other < listings[source]@.len() && (source < i || other < at)
                ==> usage_sources[source].home@ != usage_sources[i].home@
                || listings[source]@[other].relative_path@ != file.relative_path@) by {
        let files = groups@[i].files@;
        let positions = law_each_path_of_a_home_is_read_once(
            usage_sources,
            listings,
            groups@,
            i,
        );
        if files.contains(file) {
            let k = choose|k: int| 0 <= k < files.len() && files[k] == file;
            assert(positions.contains(positions[k]));
            assert(listings[i]@[positions[k]] == file);
        }
        if exists|at: int|
            #![trigger listings[i]@[at]]
            0 <= at < listings[i]@.len() && listings[i]@[at] == file && forall|
                source: int,
                other: int,
            |
                #![trigger listings[source]@[other]]
                0 <= source <= i && 0 <= other < listings[source]@.len() && (source < i || other
                    < at) ==> usage_sources[source].home@ != usage_sources[i].home@
                    || listings[source]@[other].relative_path@ != file.relative_path@ {
            let at = choose|at: int|
                #![trigger listings[i]@[at]]
                0 <= at < listings[i]@.len() && listings[i]@[at] == file && forall|
                    source: int,
                    other: int,
                |
                    #![trigger listings[source]@[other]]
                    0 <= source <= i && 0 <= other < listings[source]@.len() && (source < i
                        || other < at) ==> usage_sources[source].home@ != usage_sources[i].home@
                        || listings[source]@[other].relative_path@ != file.relative_path@;
            assert(positions.contains(at));
            let k = choose|k: int| 0 <= k < positions.len() && positions[k] == at;
            assert(files[k] == file);
        }
    }
    (listings, groups, plan, readings)
}

} // verus!

//! Reading session logs, one after another or shared out among workers.

use vstd::prelude::*;

use crate::event::CodexTokenUsageEvent;
use crate::schedule;
use crate::sources::SessionFile;

verus! {

/// What a visit of a session log found.
#[derive(Debug)]
pub struct SessionVisit {
    /// The events that the visit came across, in the order of the log.
    pub events: Vec<CodexTokenUsageEvent>,
    /// Whether the visit reached the end of the log.
    pub completed: bool,
}

/// The events of a log that a worker read, with the index of the log.
pub type LoadedFile = (usize, Vec<CodexTokenUsageEvent>);

/// Whether a reading of `file` can give `events`: they are what a visit of the log comes across,
/// started with the replay prefix that the plan has for the log.
pub open spec fn is_file_reading<Plan, Prefix, Lookup, Visit>(
    replay_prefix: Lookup,
    visit_file: Visit,
    dir: &String,
    file: &SessionFile,
    plan: &Plan,
    events: Seq<CodexTokenUsageEvent>,
) -> bool where
    Lookup: Fn(&Plan, &SessionFile) -> Prefix,
    Visit: Fn(&String, &SessionFile, Prefix) -> SessionVisit,
 {
    exists|prefix: Prefix, visit: SessionVisit|
        replay_prefix.ensures((plan, file), prefix) && #[trigger] visit_file.ensures(
            (dir, file, prefix),
            visit,
        ) && visit.events@ == events
}

/// Reads a session log. A visit that breaks off still counts for what it came across before.
pub fn read_codex_session_file<Plan, Prefix, Lookup, Visit>(
    replay_prefix: &Lookup,
    visit_file: &Visit,
    dir: &String,
    file: &SessionFile,
    plan: &Plan,
) -> (events: Vec<CodexTokenUsageEvent>) where
    Lookup: Fn(&Plan, &SessionFile) -> Prefix,
    Visit: Fn(&String, &SessionFile, Prefix) -> SessionVisit,

    requires
        replay_prefix.requires((plan, file)),
        forall|prefix: Prefix| #[trigger] visit_file.requires((dir, file, prefix)),
    ensures
        is_file_reading(*replay_prefix, *visit_file, dir, file, plan, events@),
{
    let prefix = replay_prefix(plan, file);
    let visit = visit_file(dir, file, prefix);
    visit.events
}

/// Whether a reading of the logs, one after another, can give `events`: they are what a reading of
/// each log gives, put together in the order of the logs.
pub open spec fn is_in_order_reading<Plan, Prefix, Lookup, Visit>(
    replay_prefix: Lookup,
    visit_file: Visit,
    dir: &String,
    files: &Vec<SessionFile>,
    plan: &Plan,
    events: Seq<CodexTokenUsageEvent>,
) -> bool where
    Lookup: Fn(&Plan, &SessionFile) -> Prefix,
    Visit: Fn(&String, &SessionFile, Prefix) -> SessionVisit,
 {
    exists|readings: Seq<Seq<CodexTokenUsageEvent>>|
        {
            &&& readings.len() == files@.len()
            &&& forall|i: int|
                0 <= i < readings.len() ==> is_file_reading(
                    replay_prefix,
                    visit_file,
                    dir,
                    &files@[i],
                    plan,
                    #[trigger] readings[i],
                )
            &&& #[trigger] readings.flatten() == events
        }
}

/// Reads session logs one after another.
pub fn read_codex_session_files_in_order<Plan, Prefix, Lookup, Visit>(
    replay_prefix: &Lookup,
    visit_file: &Visit,
    dir: &String,
    files: &Vec<SessionFile>,
    plan: &Plan,
) -> (events: Vec<CodexTokenUsageEvent>) where
    Lookup: Fn(&Plan, &SessionFile) -> Prefix,
    Visit: Fn(&String, &SessionFile, Prefix) -> SessionVisit,

    requires
        forall|file: &SessionFile| #[trigger] replay_prefix.requires((plan, file)),
        forall|file: &SessionFile, prefix: Prefix| #[trigger]
            visit_file.requires((dir, file, prefix)),
    ensures
        is_in_order_reading(*replay_prefix, *visit_file, dir, files, plan, events@),
{
    let mut events: Vec<CodexTokenUsageEvent> = Vec::new();
    let ghost mut readings: Seq<Seq<CodexTokenUsageEvent>> = Seq::empty();
    let mut next: usize = 0;
    while next < files.len()
        invariant
            forall|file: &SessionFile| #[trigger] replay_prefix.requires((plan, file)),
            forall|file: &SessionFile, prefix: Prefix| #[trigger]
                visit_file.requires((dir, file, prefix)),
            next <= files@.len(),
            readings.len() == next,
            forall|i: int|
                0 <= i < readings.len() ==> is_file_reading(
                    *replay_prefix,
                    *visit_file,
                    dir,
                    &files@[i],
                    plan,
                    #[trigger] readings[i],
                ),
            readings.flatten() == events@,
        decreases files@.len() - next,
    {
        let mut found = read_codex_session_file(replay_prefix, visit_file, dir, &files[next], plan);
        proof {
            readings.lemma_flatten_push(found@);
            readings = readings.push(found@);
        }
        events.append(&mut found);
        next += 1;
    }
    events
}

/// Whether a worker that reads the logs with the given indexes can give `loaded`: the index and a
/// reading of each of the logs, in the order of the indexes.
pub open spec fn is_chunk_reading<Plan, Prefix, Lookup, Visit>(
    replay_prefix: Lookup,
    visit_file: Visit,
    dir: &String,
    files: &Vec<SessionFile>,
    plan: &Plan,
    chunk: Seq<usize>,
    loaded: Seq<LoadedFile>,
) -> bool where
    Lookup: Fn(&Plan, &SessionFile) -> Prefix,
    Visit: Fn(&String, &SessionFile, Prefix) -> SessionVisit,
 {
    &&& loaded.len() == chunk.len()
    &&& forall|i: int|
        0 <= i < loaded.len() ==> (#[trigger] loaded[i]).0 == chunk[i] && is_file_reading(
            replay_prefix,
            visit_file,
            dir,
            &files@[chunk[i] as int],
            plan,
            loaded[i].1@,
        )
}

/// Reads the session logs with the given indexes: the work of one worker.
pub fn read_codex_session_chunk<Plan, Prefix, Lookup, Visit>(
    replay_prefix: &Lookup,
    visit_file: &Visit,
    dir: &String,
    files: &Vec<SessionFile>,
    plan: &Plan,
    chunk: &Vec<usize>,
) -> (loaded: Vec<LoadedFile>) where
    Lookup: Fn(&Plan, &SessionFile) -> Prefix,
    Visit: Fn(&String, &SessionFile, Prefix) -> SessionVisit,

    requires
        forall|i: int| 0 <= i < chunk@.len() ==> #[trigger] chunk@[i] < files@.len(),
        forall|file: &SessionFile| #[trigger] replay_prefix.requires((plan, file)),
        forall|file: &SessionFile, prefix: Prefix| #[trigger]
            visit_file.requires((dir, file, prefix)),
    ensures
        is_chunk_reading(*replay_prefix, *visit_file, dir, files, plan, chunk@, loaded@),
{
    let mut loaded: Vec<LoadedFile> = Vec::with_capacity(chunk.len());
    let mut next: usize = 0;
    while next < chunk.len()
        invariant
            forall|i: int| 0 <= i < chunk@.len() ==> #[trigger] chunk@[i] < files@.len(),
            forall|file: &SessionFile| #[trigger] replay_prefix.requires((plan, file)),
            forall|file: &SessionFile, prefix: Prefix| #[trigger]
                visit_file.requires((dir, file, prefix)),
            next <= chunk@.len(),
            is_chunk_reading(
                *replay_prefix,
                *visit_file,
                dir,
                files,
                plan,
                chunk@.take(next as int),
                loaded@,
            ),
        decreases chunk@.len() - next,
    {
        let index: usize = chunk[next];
        let events = read_codex_session_file(replay_prefix, visit_file, dir, &files[index], plan);
        loaded.push((index, events));
        next += 1;
    }
    proof {
        assert(chunk@.take(next as int) =~= chunk@);
    }
    loaded
}

/// The events that were loaded last for the log with the given index; none where the log was not
/// loaded.
pub open spec fn loaded_last(loaded: Seq<LoadedFile>, index: int) -> Seq<CodexTokenUsageEvent>
    decreases loaded.len(),
{
    if loaded.len() == 0 {
        Seq::empty()
    } else if loaded.last().0 == index {
        loaded.last().1@
    } else {
        loaded_last(loaded.drop_last(), index)
    }
}

/// The events that were loaded for the logs, in the order of the logs.
pub open spec fn merged_files(count: nat, loaded: Seq<LoadedFile>) -> Seq<CodexTokenUsageEvent> {
    Seq::new(count, |index: int| loaded_last(loaded, index)).flatten()
}

/// Whether what was loaded belongs to one of the given number of logs.
pub open spec fn indexes_in_range(loaded: Seq<LoadedFile>, count: nat) -> bool {
    forall|i: int| 0 <= i < loaded.len() ==> (#[trigger] loaded[i]).0 < count
}

/// Puts what the workers loaded, in whatever order it came, into the order of the logs.
pub fn merge_loaded_files(count: usize, loaded: Vec<LoadedFile>) -> (events: Vec<
    CodexTokenUsageEvent,
>)
    requires
        indexes_in_range(loaded@, count as nat),
    ensures
        events@ == merged_files(count as nat, loaded@),
{
    let ghost all = loaded@;
    let mut slots: Vec<Option<Vec<CodexTokenUsageEvent>>> = Vec::with_capacity(count);
    while slots.len() < count
        invariant
            slots@.len() <= count,
            forall|i: int| 0 <= i < slots@.len() ==> #[trigger] slots@[i] is None,
        decreases count - slots@.len(),
    {
        slots.push(None);
    }
    for (index, events) in iter: loaded
        invariant
            iter.seq() == all,
            indexes_in_range(all, count as nat),
            slots@.len() == count,
            forall|i: int|
                0 <= i < count ==> slot_events(#[trigger] slots@[i]) == loaded_last(
                    all.take(iter.index()),
                    i,
                ),
    {
        proof {
            let at = iter.index();
            assert(all[at].0 == index);
            assert(all.take(at + 1).drop_last() =~= all.take(at));
        }
        slots[index] = Some(events);
    }
    proof {
        assert(all.take(all.len() as int) =~= all);
    }
    let ghost filled = slots@;
    let ghost by_file = Seq::new(count as nat, |index: int| loaded_last(all, index));
    let mut merged: Vec<CodexTokenUsageEvent> = Vec::new();
    for slot in iter: slots
        invariant
            iter.seq() == filled,
            filled.len() == count,
            by_file == Seq::new(count as nat, |index: int| loaded_last(all, index)),
            forall|i: int|
                0 <= i < count ==> slot_events(#[trigger] filled[i]) == loaded_last(all, i),
            merged@ == by_file.take(iter.index()).flatten(),
    {
        proof {
            let at = iter.index();
            assert(by_file.take(at + 1) =~= by_file.take(at).push(by_file[at]));
            by_file.take(at).lemma_flatten_push(by_file[at]);
            assert(slot_events(filled[at]) == by_file[at]);
        }
        match slot {
            Some(mut events) => {
                merged.append(&mut events);
            },
            None => {},
        }
    }
    proof {
        assert(by_file.take(count as int) =~= by_file);
    }
    merged
}

/// The events in a slot; none where the slot is empty.
spec fn slot_events(slot: Option<Vec<CodexTokenUsageEvent>>) -> Seq<CodexTokenUsageEvent> {
    match slot {
        Some(events) => events@,
        None => Seq::empty(),
    }
}

/// Whether a reading of the logs by the given number of workers can give `events`: the logs are
/// shared out among the workers, and what the workers hand back is put into the order of the logs.
pub open spec fn is_shared_reading<Plan, Work>(
    run_workers: Work,
    workers: nat,
    dir: &String,
    files: &Vec<SessionFile>,
    plan: &Plan,
    events: Seq<CodexTokenUsageEvent>,
) -> bool where Work: Fn(&String, &Vec<SessionFile>, &Plan, &Vec<Vec<usize>>) -> Vec<LoadedFile> {
    exists|chunks: Vec<Vec<usize>>, loaded: Vec<LoadedFile>|
        {
            &&& schedule::chunk_views(chunks@) == schedule::chunks_by_size(
                files@,
                workers,
                files@.len(),
            )
            &&& schedule::is_chunking(files@, workers, chunks@)
            &&& #[trigger] run_workers.ensures((dir, files, plan, &chunks), loaded)
            &&& merged_files(files@.len(), loaded@) == events
        }
}

/// Whether `loaded` holds readings of the logs, in whatever order: each entry is a reading of the
/// log with its index, and each log has an entry.
pub open spec fn are_readings<Plan, Prefix, Lookup, Visit>(
    replay_prefix: Lookup,
    visit_file: Visit,
    dir: &String,
    files: &Vec<SessionFile>,
    plan: &Plan,
    loaded: Seq<LoadedFile>,
) -> bool where
    Lookup: Fn(&Plan, &SessionFile) -> Prefix,
    Visit: Fn(&String, &SessionFile, Prefix) -> SessionVisit,
 {
    &&& forall|i: int|
        0 <= i < loaded.len() ==> (#[trigger] loaded[i]).0 < files@.len() && is_file_reading(
            replay_prefix,
            visit_file,
            dir,
            &files@[loaded[i].0 as int],
            plan,
            loaded[i].1@,
        )
    &&& forall|index: int| 0 <= index < files@.len() ==> #[trigger] is_loaded(loaded, index)
}

/// Whether the log with the given index has an entry.
pub open spec fn is_loaded(loaded: Seq<LoadedFile>, index: int) -> bool {
    exists|i: int| 0 <= i < loaded.len() && (#[trigger] loaded[i]).0 == index
}

/// Whether workers that are handed the logs read them all, and hand back what they read, in
/// whatever order.
pub open spec fn do_workers_read<Plan, Prefix, Lookup, Visit, Work>(
    replay_prefix: Lookup,
    visit_file: Visit,
    run_workers: Work,
    dir: &String,
    files: &Vec<SessionFile>,
    plan: &Plan,
) -> bool where
    Lookup: Fn(&Plan, &SessionFile) -> Prefix,
    Visit: Fn(&String, &SessionFile, Prefix) -> SessionVisit,
    Work: Fn(&String, &Vec<SessionFile>, &Plan, &Vec<Vec<usize>>) -> Vec<LoadedFile>,
 {
    forall|chunks: &Vec<Vec<usize>>, loaded: Vec<LoadedFile>|
        schedule::is_partition(files@.len(), chunks@) && #[trigger] run_workers.ensures(
            (dir, files, plan, chunks),
            loaded,
        ) ==> are_readings(replay_prefix, visit_file, dir, files, plan, loaded@)
}

/// Where the events come from that were loaded last for a log that was loaded.
pub proof fn lemma_loaded_last(loaded: Seq<LoadedFile>, position: int) -> (last: int)
    requires
        0 <= position < loaded.len(),
    ensures
        position <= last < loaded.len(),
        loaded[last].0 == loaded[position].0,
        loaded_last(loaded, loaded[position].0 as int) == loaded[last].1@,
    decreases loaded.len(),
{
    if loaded.last().0 == loaded[position].0 {
        loaded.len() - 1
    } else {
        lemma_loaded_last(loaded.drop_last(), position)
    }
}

/// Readings of the logs, put into the order of the logs, are a reading of one log after another.
pub proof fn lemma_merged_readings_are_in_order<Plan, Prefix, Lookup, Visit>(
    replay_prefix: Lookup,
    visit_file: Visit,
    dir: &String,
    files: &Vec<SessionFile>,
    plan: &Plan,
    loaded: Seq<LoadedFile>,
) where
    Lookup: Fn(&Plan, &SessionFile) -> Prefix,
    Visit: Fn(&String, &SessionFile, Prefix) -> SessionVisit,

    requires
        are_readings(replay_prefix, visit_file, dir, files, plan, loaded),
    ensures
        is_in_order_reading(
            replay_prefix,
            visit_file,
            dir,
            files,
            plan,
            merged_files(files@.len(), loaded),
        ),
{
    let readings = Seq::new(files@.len(), |index: int| loaded_last(loaded, index));
    assert forall|index: int| 0 <= index < readings.len() implies is_file_reading(
        replay_prefix,
        visit_file,
        dir,
        &files@[index],
        plan,
        #[trigger] readings[index],
    ) by {
        assert(is_loaded(loaded, index));
        let position = choose|i: int| 0 <= i < loaded.len() && (#[trigger] loaded[i]).0 == index;
        let last = lemma_loaded_last(loaded, position);
        assert(loaded[last].0 == index);
    }
    assert(readings.flatten() == merged_files(files@.len(), loaded));
}

/// Reads session logs with as many workers as can run at once; one after another where that is no
/// more than one. Where the workers read all that they are handed, the events come as if the logs
/// were read one after another.
pub fn read_codex_session_files_parallel<Plan, Prefix, Lookup, Visit, Work>(
    replay_prefix: &Lookup,
    visit_file: &Visit,
    run_workers: &Work,
    available_parallelism: Option<usize>,
    dir: &String,
    files: &Vec<SessionFile>,
    plan: &Plan,
) -> (events: Vec<CodexTokenUsageEvent>) where
    Lookup: Fn(&Plan, &SessionFile) -> Prefix,
    Visit: Fn(&String, &SessionFile, Prefix) -> SessionVisit,
    Work: Fn(&String, &Vec<SessionFile>, &Plan, &Vec<Vec<usize>>) -> Vec<LoadedFile>,

    requires
        forall|file: &SessionFile| #[trigger] replay_prefix.requires((plan, file)),
        forall|file: &SessionFile, prefix: Prefix| #[trigger]
            visit_file.requires((dir, file, prefix)),
        forall|chunks: &Vec<Vec<usize>>|
            schedule::is_partition(files@.len(), chunks@) ==> #[trigger] run_workers.requires(
                (dir, files, plan, chunks),
            ),
        forall|chunks: &Vec<Vec<usize>>, loaded: Vec<LoadedFile>|
            schedule::is_partition(files@.len(), chunks@) && #[trigger] run_workers.ensures(
                (dir, files, plan, chunks),
                loaded,
            ) ==> indexes_in_range(loaded@, files@.len()),
    ensures
        ({
            let workers = schedule::worker_count_spec(available_parallelism, files@.len());
            if workers <= 1 {
                is_in_order_reading(*replay_prefix, *visit_file, dir, files, plan, events@)
            } else {
                is_shared_reading(*run_workers, workers, dir, files, plan, events@)
            }
        }),
        do_workers_read(*replay_prefix, *visit_file, *run_workers, dir, files, plan)
            ==> is_in_order_reading(*replay_prefix, *visit_file, dir, files, plan, events@),
{
    let workers: usize = schedule::worker_count(available_parallelism, files.len());
    if workers <= 1 {
        return read_codex_session_files_in_order(replay_prefix, visit_file, dir, files, plan);
    }
    let chunks = schedule::chunk_file_indexes_by_size(files, workers);
    let loaded = run_workers(dir, files, plan, &chunks);
    let ghost handed_back = loaded@;
    let events = merge_loaded_files(files.len(), loaded);
    proof {
        assert(is_shared_reading(*run_workers, workers as nat, dir, files, plan, events@));
        if do_workers_read(*replay_prefix, *visit_file, *run_workers, dir, files, plan) {
            lemma_merged_readings_are_in_order(
                *replay_prefix,
                *visit_file,
                dir,
                files,
                plan,
                handed_back,
            );
        }
    }
    events
}

} // verus!

//! Laws of sharing the reading out among workers.

use vstd::prelude::*;

use crate::event::CodexTokenUsageEvent;
use crate::laws::lists;
use crate::reading;
use crate::reading::{LoadedFile, SessionVisit};
use crate::schedule;
use crate::sources::SessionFile;

verus! {

/// Workers that read a chunk each read every log, however the logs are shared out, and whatever the
/// order in which they hand back what they read.
pub proof fn law_workers_read_every_log<Plan, Prefix, Lookup, Visit>(
    replay_prefix: Lookup,
    visit_file: Visit,
    dir: &String,
    files: &Vec<SessionFile>,
    plan: &Plan,
    chunks: Seq<Vec<usize>>,
    handed_back: Seq<Seq<LoadedFile>>,
    loaded: Seq<LoadedFile>,
) where
    Lookup: Fn(&Plan, &SessionFile) -> Prefix,
    Visit: Fn(&String, &SessionFile, Prefix) -> SessionVisit,

    requires
        schedule::is_partition(files@.len(), chunks),
        handed_back.len() == chunks.len(),
        forall|i: int|
            0 <= i < chunks.len() ==> reading::is_chunk_reading(
                replay_prefix,
                visit_file,
                dir,
                files,
                plan,
                chunks[i]@,
                #[trigger] handed_back[i],
            ),
        loaded.to_multiset() == handed_back.flatten().to_multiset(),
    ensures
        reading::are_readings(replay_prefix, visit_file, dir, files, plan, loaded),
{
    let joined = handed_back.flatten();
    loaded.to_multiset_ensures();
    joined.to_multiset_ensures();
    assert forall|i: int| 0 <= i < loaded.len() implies (#[trigger] loaded[i]).0 < files@.len()
        && reading::is_file_reading(
        replay_prefix,
        visit_file,
        dir,
        &files@[loaded[i].0 as int],
        plan,
        loaded[i].1@,
    ) by {
        assert(loaded.contains(loaded[i]));
        assert(loaded.to_multiset().count(loaded[i]) > 0);
        assert(joined.contains(loaded[i]));
        let k = choose|k: int| 0 <= k < joined.len() && joined[k] == loaded[i];
        let (chunk, slot) = lists::lemma_flatten_origin(handed_back, k);
        assert(reading::is_chunk_reading(
            replay_prefix,
            visit_file,
            dir,
            files,
            plan,
            chunks[chunk]@,
            handed_back[chunk],
        ));
        assert(handed_back[chunk][slot].0 == chunks[chunk]@[slot]);
    }
    assert forall|index: int| 0 <= index < files@.len() implies #[trigger] reading::is_loaded(
        loaded,
        index,
    ) by {
        assert(index < files.len());
        assert(schedule::in_some_chunk(chunks, index as usize));
        let (chunk, slot) = choose|chunk: int, slot: int|
            #![trigger chunks[chunk]@[slot]]
            0 <= chunk < chunks.len() && 0 <= slot < chunks[chunk]@.len() && chunks[chunk]@[slot]
                == index as usize;
        assert(reading::is_chunk_reading(
            replay_prefix,
            visit_file,
            dir,
            files,
            plan,
            chunks[chunk]@,
            handed_back[chunk],
        ));
        let entry = handed_back[chunk][slot];
        assert(entry.0 == index);
        lists::lemma_flatten_holds(handed_back, chunk, slot);
        assert(joined.to_multiset().count(entry) > 0);
        assert(loaded.contains(entry));
        let i = choose|i: int| 0 <= i < loaded.len() && loaded[i] == entry;
        assert(loaded[i].0 == index);
    }
}

/// What workers read that read a chunk each, put into the order of the logs, is what one thread
/// reads, one log after another: however the logs are shared out, and whatever the order in which
/// the workers hand back what they read.
pub proof fn law_shared_reading_is_in_order_reading<Plan, Prefix, Lookup, Visit>(
    replay_prefix: Lookup,
    visit_file: Visit,
    dir: &String,
    files: &Vec<SessionFile>,
    plan: &Plan,
    chunks: Seq<Vec<usize>>,
    handed_back: Seq<Seq<LoadedFile>>,
    loaded: Seq<LoadedFile>,
) where
    Lookup: Fn(&Plan, &SessionFile) -> Prefix,
    Visit: Fn(&String, &SessionFile, Prefix) -> SessionVisit,

    requires
        schedule::is_partition(files@.len(), chunks),
        handed_back.len() == chunks.len(),
        forall|i: int|
            0 <= i < chunks.len() ==> reading::is_chunk_reading(
                replay_prefix,
                visit_file,
                dir,
                files,
                plan,
                chunks[i]@,
                #[trigger] handed_back[i],
            ),
        loaded.to_multiset() == handed_back.flatten().to_multiset(),
    ensures
        reading::is_in_order_reading(
            replay_prefix,
            visit_file,
            dir,
            files,
            plan,
            reading::merged_files(files@.len(), loaded),
        ),
{
    law_workers_read_every_log(
        replay_prefix,
        visit_file,
        dir,
        files,
        plan,
        chunks,
        handed_back,
        loaded,
    );
    reading::lemma_merged_readings_are_in_order(
        replay_prefix,
        visit_file,
        dir,
        files,
        plan,
        loaded,
    );
}

/// The order in which workers hand back what they loaded does not matter.
pub proof fn law_order_of_workers_does_not_matter(
    count: nat,
    loaded: Seq<LoadedFile>,
    reordered: Seq<LoadedFile>,
)
    requires
        loaded.to_multiset() == reordered.to_multiset(),
        forall|i: int, j: int|
            0 <= i < j < loaded.len() ==> (#[trigger] loaded[i]).0 != (#[trigger] loaded[j]).0,
    ensures
        reading::merged_files(count, loaded) == reading::merged_files(count, reordered),
{
    loaded.to_multiset_ensures();
    reordered.to_multiset_ensures();
    let by_file = Seq::new(count, |index: int| reading::loaded_last(loaded, index));
    let by_file_reordered = Seq::new(count, |index: int| reading::loaded_last(reordered, index));
    assert forall|index: int| 0 <= index < count implies #[trigger] by_file[index]
        == by_file_reordered[index] by {
        if exists|i: int| 0 <= i < reordered.len() && (#[trigger] reordered[i]).0 == index {
            let i = choose|i: int| 0 <= i < reordered.len() && (#[trigger] reordered[i]).0 == index;
            let last = reading::lemma_loaded_last(reordered, i);
            let found = reordered[last];
            assert(reordered.contains(found));
            assert(reordered.to_multiset().count(found) > 0);
            assert(loaded.contains(found));
            let j = choose|j: int| 0 <= j < loaded.len() && loaded[j] == found;
            let only = reading::lemma_loaded_last(loaded, j);
            assert(only == j);
        } else {
            lemma_never_loaded(reordered, index);
            assert forall|j: int| 0 <= j < loaded.len() implies (#[trigger] loaded[j]).0
                != index by {
                assert(loaded.contains(loaded[j]));
                assert(loaded.to_multiset().count(loaded[j]) > 0);
                assert(reordered.contains(loaded[j]));
            }
            lemma_never_loaded(loaded, index);
        }
    }
    assert(by_file =~= by_file_reordered);
}

/// A log of which nothing was handed back has no events.
pub proof fn lemma_never_loaded(loaded: Seq<LoadedFile>, index: int)
    requires
        forall|i: int| 0 <= i < loaded.len() ==> (#[trigger] loaded[i]).0 != index,
    ensures
        reading::loaded_last(loaded, index) == Seq::<CodexTokenUsageEvent>::empty(),
    decreases loaded.len(),
{
    if loaded.len() > 0 {
        lemma_never_loaded(loaded.drop_last(), index);
    }
}

} // verus!

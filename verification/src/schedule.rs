//! How the reading of session logs is shared out among workers.

use vstd::prelude::*;

use crate::sources::SessionFile;

verus! {

/// The number of workers that share the reading of `files` logs: as many as can run at once, one
/// where that is not known, and no more than there are logs.
pub open spec fn worker_count_spec(available: Option<usize>, files: nat) -> nat {
    let limit: nat = match available {
        Some(count) => count as nat,
        None => 1,
    };
    if limit < files {
        limit
    } else {
        files
    }
}

/// The number of workers that share the reading of `files` logs.
pub fn worker_count(available: Option<usize>, files: usize) -> (workers: usize)
    ensures
        workers == worker_count_spec(available, files as nat),
{
    let limit: usize = match available {
        Some(count) => count,
        None => 1,
    };
    if limit < files {
        limit
    } else {
        files
    }
}

/// The bytes that the logs with the given indexes hold together.
pub open spec fn chunk_load(files: Seq<SessionFile>, chunk: Seq<usize>) -> nat
    decreases chunk.len(),
{
    if chunk.len() == 0 {
        0
    } else {
        chunk_load(files, chunk.drop_last()) + files[chunk.last() as int].size as nat
    }
}

/// The size of the largest of the logs.
pub open spec fn largest_size(files: Seq<SessionFile>) -> nat
    decreases files.len(),
{
    if files.len() == 0 {
        0
    } else if files.last().size as nat > largest_size(files.drop_last()) {
        files.last().size as nat
    } else {
        largest_size(files.drop_last())
    }
}

/// Whether the chunks hold the index of each of the first `count` logs exactly once, and nothing
/// else.
pub open spec fn is_partition(count: nat, chunks: Seq<Vec<usize>>) -> bool {
    &&& forall|chunk: int, slot: int|
        #![trigger chunks[chunk]@[slot]]
        0 <= chunk < chunks.len() && 0 <= slot < chunks[chunk]@.len() ==> chunks[chunk]@[slot]
            < count
    &&& forall|index: int|
        0 <= index < count ==> #[trigger] in_some_chunk(chunks, index as usize)
    &&& forall|chunk: int, slot: int, other_chunk: int, other_slot: int|
        #![trigger chunks[chunk]@[slot], chunks[other_chunk]@[other_slot]]
        0 <= chunk < chunks.len() && 0 <= slot < chunks[chunk]@.len() && 0 <= other_chunk
            < chunks.len() && 0 <= other_slot < chunks[other_chunk]@.len()
            && chunks[chunk]@[slot] == chunks[other_chunk]@[other_slot] ==> chunk == other_chunk
            && slot == other_slot
}

/// Whether a chunk holds the given index.
pub open spec fn in_some_chunk(chunks: Seq<Vec<usize>>, index: usize) -> bool {
    exists|chunk: int, slot: int|
        #![trigger chunks[chunk]@[slot]]
        0 <= chunk < chunks.len() && 0 <= slot < chunks[chunk]@.len() && chunks[chunk]@[slot]
            == index
}

/// Whether no chunk holds more bytes than another and the largest log together.
pub open spec fn is_balanced(files: Seq<SessionFile>, chunks: Seq<Vec<usize>>) -> bool {
    forall|heavy: int, light: int|
        #![trigger chunks[heavy], chunks[light]]
        0 <= heavy < chunks.len() && 0 <= light < chunks.len() ==> chunk_load(
            files,
            chunks[heavy]@,
        ) <= chunk_load(files, chunks[light]@) + largest_size(files)
}

/// Whether a chunk is the first of those with the fewest bytes.
pub open spec fn is_lightest(
    files: Seq<SessionFile>,
    chunks: Seq<Seq<usize>>,
    chunk: int,
) -> bool {
    &&& 0 <= chunk < chunks.len()
    &&& forall|other: int|
        0 <= other < chunks.len() ==> chunk_load(files, chunks[chunk]) <= chunk_load(
            files,
            #[trigger] chunks[other],
        )
    &&& forall|other: int|
        0 <= other < chunk ==> chunk_load(files, chunks[chunk]) < chunk_load(
            files,
            #[trigger] chunks[other],
        )
}

/// The chunks of the first `count` logs: each log, in its turn, goes to the first of the chunks
/// with the fewest bytes.
pub open spec fn chunks_by_size(
    files: Seq<SessionFile>,
    workers: nat,
    count: nat,
) -> Seq<Seq<usize>>
    decreases count,
{
    if count == 0 {
        Seq::new(workers, |chunk: int| Seq::empty())
    } else {
        let before = chunks_by_size(files, workers, (count - 1) as nat);
        let lightest = choose|chunk: int| is_lightest(files, before, chunk);
        before.update(lightest, before[lightest].push((count - 1) as usize))
    }
}

/// The chunks as mathematical values.
pub open spec fn chunk_views(chunks: Seq<Vec<usize>>) -> Seq<Seq<usize>> {
    chunks.map_values(|chunk: Vec<usize>| chunk@)
}

/// Whether the chunks share the logs out among the given number of workers.
pub open spec fn is_chunking(
    files: Seq<SessionFile>,
    workers: nat,
    chunks: Seq<Vec<usize>>,
) -> bool {
    &&& chunks.len() == workers
    &&& is_partition(files.len(), chunks)
    &&& is_balanced(files, chunks)
}

proof fn lemma_load_push(files: Seq<SessionFile>, chunk: Seq<usize>, index: usize)
    ensures
        chunk_load(files, chunk.push(index)) == chunk_load(files, chunk)
            + files[index as int].size,
{
    assert(chunk.push(index).drop_last() =~= chunk);
}

proof fn lemma_largest_size(files: Seq<SessionFile>, index: int)
    requires
        0 <= index < files.len(),
    ensures
        files[index].size <= largest_size(files),
    decreases files.len(),
{
    if index < files.len() - 1 {
        lemma_largest_size(files.drop_last(), index);
    }
}

/// The first of the chunks with the smallest load.
fn lightest(loads: &Vec<u128>) -> (chunk: usize)
    requires
        loads@.len() > 0,
    ensures
        chunk < loads@.len(),
        forall|other: int| 0 <= other < loads@.len() ==> loads@[chunk as int]
            <= #[trigger] loads@[other],
        forall|other: int| 0 <= other < chunk ==> loads@[chunk as int] < #[trigger] loads@[other],
{
    let mut best: usize = 0;
    let mut next: usize = 1;
    while next < loads.len()
        invariant
            best < loads@.len(),
            1 <= next <= loads@.len(),
            forall|other: int|
                0 <= other < next ==> loads@[best as int] <= #[trigger] loads@[other],
            forall|other: int|
                0 <= other < best ==> loads@[best as int] < #[trigger] loads@[other],
        decreases loads@.len() - next,
    {
        if loads[next] < loads[best] {
            best = next;
        }
        next += 1;
    }
    best
}

/// Shares the logs out among the workers: each log, in its turn, goes to the first of the workers
/// that have the fewest bytes to read.
pub fn chunk_file_indexes_by_size(files: &Vec<SessionFile>, workers: usize) -> (chunks: Vec<
    Vec<usize>,
>)
    requires
        workers > 0,
    ensures
        chunk_views(chunks@) == chunks_by_size(files@, workers as nat, files@.len()),
        is_chunking(files@, workers as nat, chunks@),
{
    let mut chunks: Vec<Vec<usize>> = Vec::with_capacity(workers);
    let mut loads: Vec<u128> = Vec::with_capacity(workers);
    while chunks.len() < workers
        invariant
            chunks@.len() <= workers,
            loads@.len() == chunks@.len(),
            forall|chunk: int|
                0 <= chunk < chunks@.len() ==> (#[trigger] chunks@[chunk])@.len() == 0,
            forall|chunk: int| 0 <= chunk < chunks@.len() ==> #[trigger] loads@[chunk] == 0,
        decreases workers - chunks@.len(),
    {
        chunks.push(Vec::new());
        loads.push(0);
    }
    proof {
        assert(chunk_views(chunks@) =~~= chunks_by_size(files@, workers as nat, 0));
    }
    let mut index: usize = 0;
    while index < files.len()
        invariant
            index <= files@.len(),
            chunk_views(chunks@) == chunks_by_size(files@, workers as nat, index as nat),
            workers > 0,
            chunks@.len() == workers,
            loads@.len() == workers,
            is_partition(index as nat, chunks@),
            is_balanced(files@, chunks@),
            forall|chunk: int|
                0 <= chunk < chunks@.len() ==> #[trigger] loads@[chunk] == chunk_load(
                    files@,
                    chunks@[chunk]@,
                ),
            forall|chunk: int|
                0 <= chunk < chunks@.len() ==> #[trigger] loads@[chunk] <= index * u64::MAX,
        decreases files@.len() - index,
    {
        let chunk: usize = lightest(&loads);
        let ghost before = chunks@;
        let ghost loads_before = loads@;
        let ghost kept = chunks@[chunk as int]@;
        let size: u64 = files[index].size;
        loads[chunk] = loads[chunk] + size as u128;
        chunks[chunk].push(index);
        proof {
            lemma_load_push(files@, kept, index);
            lemma_largest_size(files@, index as int);
            assert(chunks@[chunk as int]@ == kept.push(index));
            assert forall|other: int| 0 <= other < chunks@.len() && other != chunk implies
                #[trigger] chunks@[other] == before[other] by {}
            lemma_partition_push(before, chunks@, chunk as int, index);
            let views = chunk_views(before);
            assert forall|other: int| 0 <= other < views.len() implies chunk_load(
                files@,
                #[trigger] views[other],
            ) == loads_before[other] by {
                assert(loads_before[other] == chunk_load(files@, before[other]@));
            }
            assert(is_lightest(files@, views, chunk as int));
            let first = choose|chunk: int| is_lightest(files@, views, chunk);
            assert(is_lightest(files@, views, first));
            assert(chunk_load(files@, views[first]) == chunk_load(files@, views[chunk as int]));
            assert(first == chunk);
            assert(chunk_views(chunks@) =~= views.update(first, views[first].push(index)));
            assert forall|heavy: int, light: int|
                #![trigger chunks@[heavy], chunks@[light]]
                0 <= heavy < chunks@.len() && 0 <= light < chunks@.len() implies chunk_load(
                files@,
                chunks@[heavy]@,
            ) <= chunk_load(files@, chunks@[light]@) + largest_size(files@) by {
                assert(loads_before[heavy] == chunk_load(files@, before[heavy]@));
                assert(loads_before[light] == chunk_load(files@, before[light]@));
                assert(loads_before[chunk as int] <= loads_before[light]);
                assert(chunk_load(files@, before[heavy]@) <= chunk_load(files@, before[light]@)
                    + largest_size(files@));
            }
        }
        index += 1;
    }
    chunks
}

/// One more index in one of the chunks.
proof fn lemma_partition_push(
    before: Seq<Vec<usize>>,
    after: Seq<Vec<usize>>,
    chunk: int,
    index: usize,
)
    requires
        is_partition(index as nat, before),
        0 <= chunk < before.len(),
        after.len() == before.len(),
        after[chunk]@ == before[chunk]@.push(index),
        forall|other: int|
            0 <= other < before.len() && other != chunk ==> #[trigger] after[other]
                == before[other],
    ensures
        is_partition((index + 1) as nat, after),
{
    assert forall|wanted: int| 0 <= wanted < index + 1 implies #[trigger] in_some_chunk(
        after,
        wanted as usize,
    ) by {
        if wanted < index {
            assert(in_some_chunk(before, wanted as usize));
            let (at, slot) = choose|at: int, slot: int|
                #![trigger before[at]@[slot]]
                0 <= at < before.len() && 0 <= slot < before[at]@.len() && before[at]@[slot]
                    == wanted as usize;
            assert(after[at]@[slot] == wanted as usize);
        } else {
            assert(after[chunk]@[before[chunk]@.len() as int] == index);
        }
    }
    assert forall|at: int, slot: int|
        #![trigger after[at]@[slot]]
        0 <= at < after.len() && 0 <= slot < after[at]@.len() implies after[at]@[slot] < index + 1
        && (after[at]@[slot] == index ==> at == chunk && slot == before[chunk]@.len()) && (
    after[at]@[slot] != index ==> slot < before[at]@.len() && after[at]@[slot]
        == before[at]@[slot]) by {
        if at == chunk && slot == before[chunk]@.len() {
        } else {
            assert(after[at]@[slot] == before[at]@[slot]);
        }
    }
}

} // verus!

//! Laws of choosing the logs that are read.

use vstd::prelude::*;

use crate::sources;
use crate::sources::{CodexUsageSource, SessionFile};

verus! {

/// Whether a log of the given relative path is among the files.
pub open spec fn holds_path(files: Seq<SessionFile>, relative_path: Seq<char>) -> bool {
    exists|i: int|
        0 <= i < files.len() && (#[trigger] files[i]).relative_path@ == relative_path
}

/// Of a relative path that two sources of one home list, the copy of the source that comes first
/// wins: the later source is read without it. So an archived log is not read where the active
/// sessions of its home have a log of the same relative path.
pub proof fn law_active_copy_wins(
    usage_sources: Seq<CodexUsageSource>,
    listings: Seq<Vec<SessionFile>>,
    active: int,
    archived: int,
    relative_path: Seq<char>,
)
    requires
        listings.len() == usage_sources.len(),
        0 <= active < archived < usage_sources.len(),
        usage_sources[active].home@ == usage_sources[archived].home@,
        holds_path(listings[active]@, relative_path),
    ensures
        !holds_path(
            sources::deduped_groups(usage_sources, listings)[archived].files,
            relative_path,
        ),
{
    let group = sources::deduped_groups(usage_sources, listings)[archived];
    let i = choose|i: int|
        0 <= i < listings[active]@.len() && (#[trigger] listings[active]@[i]).relative_path@
            == relative_path;
    assert forall|count: int| 0 <= count <= listings[archived]@.len() implies
        #[trigger] sources::is_listed(
            usage_sources,
            listings,
            archived,
            count,
            usage_sources[archived].home@,
            relative_path,
        ) by {
        assert(listings[active]@[i].relative_path@ == relative_path);
    }
    if holds_path(group.files, relative_path) {
        let k = choose|k: int|
            0 <= k < group.files.len() && (#[trigger] group.files[k]).relative_path@
                == relative_path;
        let count = lemma_kept_file_origin(
            usage_sources,
            listings,
            archived,
            listings[archived]@.len() as int,
            k,
        );
        assert(sources::is_listed(
            usage_sources,
            listings,
            archived,
            count,
            usage_sources[archived].home@,
            relative_path,
        ));
    }
}

/// Where a kept file stands in the listing of its source.
pub proof fn lemma_kept_file_origin(
    usage_sources: Seq<CodexUsageSource>,
    listings: Seq<Vec<SessionFile>>,
    source: int,
    count: int,
    kept: int,
) -> (origin: int)
    requires
        0 <= count <= listings[source]@.len(),
        0 <= kept < sources::kept_files(usage_sources, listings, source, count).len(),
    ensures
        0 <= origin < count,
        listings[source]@[origin] == sources::kept_files(
            usage_sources,
            listings,
            source,
            count,
        )[kept],
        !sources::is_listed(
            usage_sources,
            listings,
            source,
            origin,
            usage_sources[source].home@,
            listings[source]@[origin].relative_path@,
        ),
    decreases count,
{
    let before = sources::kept_files(usage_sources, listings, source, count - 1);
    if kept < before.len() {
        lemma_kept_file_origin(usage_sources, listings, source, count - 1, kept)
    } else {
        count - 1
    }
}

/// A file that is not listed before is kept.
proof fn lemma_unlisted_file_is_kept(
    usage_sources: Seq<CodexUsageSource>,
    listings: Seq<Vec<SessionFile>>,
    source: int,
    count: int,
    file: int,
) -> (kept: int)
    requires
        0 <= file < count <= listings[source]@.len(),
        !sources::is_listed(
            usage_sources,
            listings,
            source,
            file,
            usage_sources[source].home@,
            listings[source]@[file].relative_path@,
        ),
    ensures
        0 <= kept < sources::kept_files(usage_sources, listings, source, count).len(),
        sources::kept_files(usage_sources, listings, source, count)[kept]
            == listings[source]@[file],
    decreases count,
{
    let before = sources::kept_files(usage_sources, listings, source, count - 1);
    if file == count - 1 {
        before.len() as int
    } else {
        lemma_unlisted_file_is_kept(usage_sources, listings, source, count - 1, file)
    }
}

/// The first place at which a path of a home is listed.
proof fn lemma_first_listed(
    usage_sources: Seq<CodexUsageSource>,
    listings: Seq<Vec<SessionFile>>,
    source: int,
    file: int,
) -> (first: (int, int))
    requires
        listings.len() == usage_sources.len(),
        0 <= source < listings.len(),
        0 <= file < listings[source]@.len(),
    ensures
        0 <= first.0 <= source,
        0 <= first.1 < listings[first.0]@.len(),
        usage_sources[first.0].home@ == usage_sources[source].home@,
        listings[first.0]@[first.1].relative_path@ == listings[source]@[file].relative_path@,
        !sources::is_listed(
            usage_sources,
            listings,
            first.0,
            first.1,
            usage_sources[first.0].home@,
            listings[first.0]@[first.1].relative_path@,
        ),
    decreases source, file,
{
    let home = usage_sources[source].home@;
    let relative_path = listings[source]@[file].relative_path@;
    if sources::is_listed(usage_sources, listings, source, file, home, relative_path) {
        let (at, i) = choose|at: int, i: int|
            #![trigger listings[at]@[i]]
            0 <= at <= source && 0 <= i < (if at < source {
                listings[at]@.len() as int
            } else {
                file
            }) && usage_sources[at].home@ == home && listings[at]@[i].relative_path@
                == relative_path;
        lemma_first_listed(usage_sources, listings, at, i)
    } else {
        (source, file)
    }
}

/// Every log that a source lists is read, itself or as the log of the same relative path of a
/// source of the same home that does not come later.
pub proof fn law_every_path_is_read(
    usage_sources: Seq<CodexUsageSource>,
    listings: Seq<Vec<SessionFile>>,
    source: int,
    relative_path: Seq<char>,
) -> (reader: int)
    requires
        listings.len() == usage_sources.len(),
        0 <= source < usage_sources.len(),
        holds_path(listings[source]@, relative_path),
    ensures
        0 <= reader <= source,
        usage_sources[reader].home@ == usage_sources[source].home@,
        holds_path(
            sources::deduped_groups(usage_sources, listings)[reader].files,
            relative_path,
        ),
{
    let file = choose|i: int|
        0 <= i < listings[source]@.len() && (#[trigger] listings[source]@[i]).relative_path@
            == relative_path;
    let first = lemma_first_listed(usage_sources, listings, source, file);
    let group = sources::deduped_groups(usage_sources, listings)[first.0];
    let kept = lemma_unlisted_file_is_kept(
        usage_sources,
        listings,
        first.0,
        listings[first.0]@.len() as int,
        first.1,
    );
    assert(group.files[kept].relative_path@ == relative_path);
    first.0
}

/// No relative path of a home is read twice.
pub proof fn law_no_path_is_read_twice(
    usage_sources: Seq<CodexUsageSource>,
    listings: Seq<Vec<SessionFile>>,
    left: int,
    left_file: int,
    right: int,
    right_file: int,
)
    requires
        listings.len() == usage_sources.len(),
        0 <= left < usage_sources.len(),
        0 <= right < usage_sources.len(),
        0 <= left_file < sources::deduped_groups(usage_sources, listings)[left].files.len(),
        0 <= right_file < sources::deduped_groups(usage_sources, listings)[right].files.len(),
        usage_sources[left].home@ == usage_sources[right].home@,
        sources::deduped_groups(usage_sources, listings)[left].files[left_file].relative_path@
            == sources::deduped_groups(
            usage_sources,
            listings,
        )[right].files[right_file].relative_path@,
    ensures
        left == right,
        left_file == right_file,
{
    let left_count = listings[left]@.len() as int;
    let right_count = listings[right]@.len() as int;
    let left_origin = lemma_kept_file_origin(
        usage_sources,
        listings,
        left,
        left_count,
        left_file,
    );
    let right_origin = lemma_kept_file_origin(
        usage_sources,
        listings,
        right,
        right_count,
        right_file,
    );
    assert(listings[left]@[left_origin].relative_path@
        == listings[right]@[right_origin].relative_path@);
    if left == right && left_file != right_file {
        if left_file < right_file {
            lemma_kept_paths_differ(
                usage_sources,
                listings,
                left,
                left_count,
                left_file,
                right_file,
            );
        } else {
            lemma_kept_paths_differ(
                usage_sources,
                listings,
                left,
                left_count,
                right_file,
                left_file,
            );
        }
    }
}

/// Two files that a source keeps have different relative paths.
proof fn lemma_kept_paths_differ(
    usage_sources: Seq<CodexUsageSource>,
    listings: Seq<Vec<SessionFile>>,
    source: int,
    count: int,
    earlier: int,
    later: int,
)
    requires
        0 <= source,
        0 <= count <= listings[source]@.len(),
        0 <= earlier < later < sources::kept_files(usage_sources, listings, source, count).len(),
    ensures
        sources::kept_files(usage_sources, listings, source, count)[earlier].relative_path@
            != sources::kept_files(usage_sources, listings, source, count)[later].relative_path@,
    decreases count,
{
    let before = sources::kept_files(usage_sources, listings, source, count - 1);
    if later < before.len() {
        lemma_kept_paths_differ(usage_sources, listings, source, count - 1, earlier, later);
    } else {
        let origin = lemma_kept_file_origin(usage_sources, listings, source, count - 1, earlier);
        assert(listings[source]@[origin] == before[earlier]);
    }
}

/// A single source is read whole: the group that is made of it is the one that a load of its
/// directory reads.
pub proof fn law_single_source_is_read_whole(source: CodexUsageSource, listing: Vec<SessionFile>)
    requires
        forall|i: int, j: int|
            0 <= i < j < listing@.len() ==> (#[trigger] listing@[i]).relative_path@ != (
            #[trigger] listing@[j]).relative_path@,
    ensures
        sources::deduped_groups(seq![source], seq![listing]) == seq![
            sources::GroupView { dir: source.dir@, files: listing@ },
        ],
{
    lemma_distinct_listing_is_kept(source, listing, listing@.len() as int);
    assert(listing@.take(listing@.len() as int) =~= listing@);
    assert(sources::deduped_groups(seq![source], seq![listing]) =~= seq![
        sources::GroupView { dir: source.dir@, files: listing@ },
    ]);
}

proof fn lemma_distinct_listing_is_kept(
    source: CodexUsageSource,
    listing: Vec<SessionFile>,
    count: int,
)
    requires
        0 <= count <= listing@.len(),
        forall|i: int, j: int|
            0 <= i < j < listing@.len() ==> (#[trigger] listing@[i]).relative_path@ != (
            #[trigger] listing@[j]).relative_path@,
    ensures
        sources::kept_files(seq![source], seq![listing], 0, count) == listing@.take(count),
    decreases count,
{
    if count > 0 {
        lemma_distinct_listing_is_kept(source, listing, count - 1);
        assert(listing@.take(count) =~= listing@.take(count - 1).push(listing@[count - 1]));
    } else {
        assert(listing@.take(count) =~= Seq::empty());
    }
}

/// Two lists of sources of which no two sources of one home list one relative path are read as if
/// each list stood alone.
pub proof fn law_lists_without_a_common_path_are_read_apart(
    left: Seq<CodexUsageSource>,
    left_listings: Seq<Vec<SessionFile>>,
    right: Seq<CodexUsageSource>,
    right_listings: Seq<Vec<SessionFile>>,
)
    requires
        left_listings.len() == left.len(),
        right_listings.len() == right.len(),
        forall|i: int, f: int, j: int, g: int|
            #![trigger left_listings[i]@[f], right_listings[j]@[g]]
            0 <= i < left.len() && 0 <= j < right.len() && 0 <= f < left_listings[i]@.len() && 0
                <= g < right_listings[j]@.len() && left[i].home@ == right[j].home@
                ==> left_listings[i]@[f].relative_path@ != right_listings[j]@[g].relative_path@,
    ensures
        sources::deduped_groups(left + right, left_listings + right_listings)
            == sources::deduped_groups(left, left_listings) + sources::deduped_groups(
            right,
            right_listings,
        ),
{
    let whole = left + right;
    let listings = left_listings + right_listings;
    let apart = sources::deduped_groups(left, left_listings) + sources::deduped_groups(
        right,
        right_listings,
    );
    assert forall|i: int| 0 <= i < whole.len() implies #[trigger] sources::deduped_groups(
        whole,
        listings,
    )[i] == apart[i] by {
        if i < left.len() {
            assert(listings[i] == left_listings[i]);
            lemma_first_list_is_kept(
                left,
                left_listings,
                right,
                right_listings,
                i,
                listings[i]@.len() as int,
            );
        } else {
            assert(listings[i] == right_listings[i - left.len()]);
            lemma_second_list_is_kept(
                left,
                left_listings,
                right,
                right_listings,
                i - left.len(),
                listings[i]@.len() as int,
            );
        }
    }
    assert(sources::deduped_groups(whole, listings) =~= apart);
}

/// The first of two lists is read as if it stood alone.
proof fn lemma_first_list_is_kept(
    left: Seq<CodexUsageSource>,
    left_listings: Seq<Vec<SessionFile>>,
    right: Seq<CodexUsageSource>,
    right_listings: Seq<Vec<SessionFile>>,
    source: int,
    count: int,
)
    requires
        left_listings.len() == left.len(),
        right_listings.len() == right.len(),
        0 <= source < left.len(),
        0 <= count <= left_listings[source]@.len(),
    ensures
        sources::kept_files(left + right, left_listings + right_listings, source, count)
            == sources::kept_files(left, left_listings, source, count),
    decreases count,
{
    if count > 0 {
        lemma_first_list_is_kept(left, left_listings, right, right_listings, source, count - 1);
        let whole = left + right;
        let listings = left_listings + right_listings;
        let home = left[source].home@;
        let path = left_listings[source]@[count - 1].relative_path@;
        assert(listings[source] == left_listings[source]);
        if sources::is_listed(whole, listings, source, count - 1, home, path) {
            let (at, file) = choose|at: int, file: int|
                #![trigger listings[at]@[file]]
                0 <= at <= source && 0 <= file < (if at < source {
                    listings[at]@.len() as int
                } else {
                    count - 1
                }) && whole[at].home@ == home && listings[at]@[file].relative_path@ == path;
            assert(left_listings[at]@[file] == listings[at]@[file]);
        }
        if sources::is_listed(left, left_listings, source, count - 1, home, path) {
            let (at, file) = choose|at: int, file: int|
                #![trigger left_listings[at]@[file]]
                0 <= at <= source && 0 <= file < (if at < source {
                    left_listings[at]@.len() as int
                } else {
                    count - 1
                }) && left[at].home@ == home && left_listings[at]@[file].relative_path@ == path;
            assert(left_listings[at]@[file] == listings[at]@[file]);
        }
    }
}

/// The second of two lists is read as if it stood alone, where it shares no path with the first.
proof fn lemma_second_list_is_kept(
    left: Seq<CodexUsageSource>,
    left_listings: Seq<Vec<SessionFile>>,
    right: Seq<CodexUsageSource>,
    right_listings: Seq<Vec<SessionFile>>,
    source: int,
    count: int,
)
    requires
        left_listings.len() == left.len(),
        right_listings.len() == right.len(),
        forall|i: int, f: int, j: int, g: int|
            #![trigger left_listings[i]@[f], right_listings[j]@[g]]
            0 <= i < left.len() && 0 <= j < right.len() && 0 <= f < left_listings[i]@.len() && 0
                <= g < right_listings[j]@.len() && left[i].home@ == right[j].home@
                ==> left_listings[i]@[f].relative_path@ != right_listings[j]@[g].relative_path@,
        0 <= source < right.len(),
        0 <= count <= right_listings[source]@.len(),
    ensures
        sources::kept_files(
            left + right,
            left_listings + right_listings,
            left.len() + source,
            count,
        ) == sources::kept_files(right, right_listings, source, count),
    decreases count,
{
    if count > 0 {
        lemma_second_list_is_kept(left, left_listings, right, right_listings, source, count - 1);
        let whole = left + right;
        let listings = left_listings + right_listings;
        let shift = left.len() as int;
        let home = right[source].home@;
        let path = right_listings[source]@[count - 1].relative_path@;
        assert(listings[shift + source] == right_listings[source]);
        assert(whole[shift + source] == right[source]);
        if sources::is_listed(whole, listings, shift + source, count - 1, home, path) {
            let (at, file) = choose|at: int, file: int|
                #![trigger listings[at]@[file]]
                0 <= at <= shift + source && 0 <= file < (if at < shift + source {
                    listings[at]@.len() as int
                } else {
                    count - 1
                }) && whole[at].home@ == home && listings[at]@[file].relative_path@ == path;
            if at < shift {
                assert(left_listings[at]@[file] == listings[at]@[file]);
                assert(left_listings[at]@[file].relative_path@ != right_listings[source]@[count
                    - 1].relative_path@);
            } else {
                assert(right_listings[at - shift]@[file] == listings[at]@[file]);
            }
        }
        if sources::is_listed(right, right_listings, source, count - 1, home, path) {
            let (at, file) = choose|at: int, file: int|
                #![trigger right_listings[at]@[file]]
                0 <= at <= source && 0 <= file < (if at < source {
                    right_listings[at]@.len() as int
                } else {
                    count - 1
                }) && right[at].home@ == home && right_listings[at]@[file].relative_path@ == path;
            assert(listings[shift + at]@[file] == right_listings[at]@[file]);
        }
    }
}

} // verus!

//! Laws of archived copies: what an archived log holds does not matter where the active sessions of
//! its home have a log of the same relative path.

use vstd::prelude::*;

use crate::event::CodexTokenUsageEvent;
use crate::laws::logs;
use crate::laws::threads;
use crate::loader;
use crate::loader::CodexLogAccess;
use crate::reading;
use crate::reading::{LoadedFile, SessionVisit};
use crate::schedule;
use crate::sources;
use crate::sources::{CodexUsageGroup, CodexUsageSource, SessionFile};

verus! {

/// The files without those of the given relative path.
pub open spec fn without_path(files: Seq<SessionFile>, relative_path: Seq<char>) -> Seq<
    SessionFile,
> {
    files.filter(|file: SessionFile| file.relative_path@ != relative_path)
}

/// Of the files, those whose relative path is not taken and does not come before.
spec fn kept_of(taken: spec_fn(Seq<char>) -> bool, files: Seq<SessionFile>) -> Seq<SessionFile>
    decreases files.len(),
{
    if files.len() == 0 {
        Seq::empty()
    } else {
        let before = kept_of(taken, files.drop_last());
        let path = files.last().relative_path@;
        if taken(path) || logs::holds_path(files.drop_last(), path) {
            before
        } else {
            before.push(files.last())
        }
    }
}

/// The relative paths that the sources before `source` take from it.
spec fn taken_before(
    usage_sources: Seq<CodexUsageSource>,
    listings: Seq<Vec<SessionFile>>,
    source: int,
) -> spec_fn(Seq<char>) -> bool {
    |path: Seq<char>|
        sources::is_listed(usage_sources, listings, source, 0, usage_sources[source].home@, path)
}

/// The kept files of a source, by what is taken from it.
proof fn lemma_kept_by_taken(
    usage_sources: Seq<CodexUsageSource>,
    listings: Seq<Vec<SessionFile>>,
    source: int,
    count: int,
)
    requires
        0 <= source < listings.len(),
        0 <= count <= listings[source]@.len(),
    ensures
        sources::kept_files(usage_sources, listings, source, count) == kept_of(
            taken_before(usage_sources, listings, source),
            listings[source]@.take(count),
        ),
    decreases count,
{
    let taken = taken_before(usage_sources, listings, source);
    let files = listings[source]@.take(count);
    if count > 0 {
        lemma_kept_by_taken(usage_sources, listings, source, count - 1);
        let before = listings[source]@.take(count - 1);
        assert(files.drop_last() =~= before);
        let home = usage_sources[source].home@;
        let path = files.last().relative_path@;
        if sources::is_listed(usage_sources, listings, source, count - 1, home, path) {
            let (at, file) = choose|at: int, file: int|
                #![trigger listings[at]@[file]]
                0 <= at <= source && 0 <= file < (if at < source {
                    listings[at]@.len() as int
                } else {
                    count - 1
                }) && usage_sources[at].home@ == home && listings[at]@[file].relative_path@ == path;
            if at < source {
                assert(taken(path));
            } else {
                assert(before[file].relative_path@ == path);
            }
        }
        if taken(path) {
            let (at, file) = choose|at: int, file: int|
                #![trigger listings[at]@[file]]
                0 <= at <= source && 0 <= file < (if at < source {
                    listings[at]@.len() as int
                } else {
                    0
                }) && usage_sources[at].home@ == home && listings[at]@[file].relative_path@ == path;
            assert(listings[at]@[file].relative_path@ == path);
        }
        if logs::holds_path(before, path) {
            let file = choose|i: int|
                0 <= i < before.len() && (#[trigger] before[i]).relative_path@ == path;
            assert(listings[source]@[file].relative_path@ == path);
        }
    }
}

/// Files of a path that is taken do not matter to what is kept.
proof fn lemma_taken_path_does_not_matter(
    taken: spec_fn(Seq<char>) -> bool,
    files: Seq<SessionFile>,
    relative_path: Seq<char>,
)
    requires
        taken(relative_path),
    ensures
        kept_of(taken, files) == kept_of(taken, without_path(files, relative_path)),
    decreases files.len(),
{
    reveal(Seq::filter);
    if files.len() > 0 {
        let before = files.drop_last();
        let file = files.last();
        let rest = without_path(before, relative_path);
        lemma_taken_path_does_not_matter(taken, before, relative_path);
        if file.relative_path@ != relative_path {
            assert(without_path(files, relative_path) == rest.push(file));
            assert(rest.push(file).drop_last() =~= rest);
            lemma_without_path_holds(before, relative_path, file.relative_path@);
        }
    }
}

/// Leaving one path out leaves the other paths in.
proof fn lemma_without_path_holds(
    files: Seq<SessionFile>,
    relative_path: Seq<char>,
    path: Seq<char>,
)
    requires
        path != relative_path,
    ensures
        logs::holds_path(without_path(files, relative_path), path) == logs::holds_path(files, path),
    decreases files.len(),
{
    reveal(Seq::filter);
    let kept = without_path(files, relative_path);
    if files.len() > 0 {
        let before = files.drop_last();
        let rest = without_path(before, relative_path);
        lemma_without_path_holds(before, relative_path, path);
        if logs::holds_path(files, path) {
            let i = choose|i: int|
                0 <= i < files.len() && (#[trigger] files[i]).relative_path@ == path;
            if i < before.len() {
                assert(before[i].relative_path@ == path);
                let j = choose|j: int|
                    0 <= j < rest.len() && (#[trigger] rest[j]).relative_path@ == path;
                assert(kept[j].relative_path@ == path);
            } else {
                assert(kept == rest.push(files.last()));
                assert(kept[rest.len() as int].relative_path@ == path);
            }
        }
        if logs::holds_path(kept, path) {
            let j = choose|j: int|
                0 <= j < kept.len() && (#[trigger] kept[j]).relative_path@ == path;
            if j < rest.len() {
                assert(rest[j].relative_path@ == path);
                let i = choose|i: int|
                    0 <= i < before.len() && (#[trigger] before[i]).relative_path@ == path;
                assert(files[i].relative_path@ == path);
            } else {
                assert(files[files.len() - 1].relative_path@ == path);
            }
        }
    }
}

/// What is taken from a source does not depend on archived copies of an active path.
proof fn lemma_taken_without_archived_copy(
    usage_sources: Seq<CodexUsageSource>,
    listings: Seq<Vec<SessionFile>>,
    altered: Seq<Vec<SessionFile>>,
    active: int,
    archived: int,
    relative_path: Seq<char>,
    source: int,
    path: Seq<char>,
)
    requires
        are_listings_but_for_copy(
            usage_sources,
            listings,
            altered,
            active,
            archived,
            relative_path,
        ),
        0 <= source < usage_sources.len(),
        taken_before(usage_sources, listings, source)(path),
    ensures
        taken_before(usage_sources, altered, source)(path),
{
    let home = usage_sources[source].home@;
    let (at, file) = choose|at: int, file: int|
        #![trigger listings[at]@[file]]
        0 <= at <= source && 0 <= file < (if at < source {
            listings[at]@.len() as int
        } else {
            0
        }) && usage_sources[at].home@ == home && listings[at]@[file].relative_path@ == path;
    assert(at < source);
    if at != archived {
        assert(altered[at]@ == listings[at]@);
        assert(altered[at]@[file].relative_path@ == path);
    } else if path == relative_path {
        let i = choose|i: int|
            0 <= i < listings[active]@.len() && (#[trigger] listings[active]@[i]).relative_path@
                == relative_path;
        assert(altered[active]@ == listings[active]@);
        assert(altered[active]@[i].relative_path@ == path);
    } else {
        lemma_without_path_holds(listings[archived]@, relative_path, path);
        lemma_without_path_holds(altered[archived]@, relative_path, path);
        assert(logs::holds_path(listings[archived]@, path));
        let i = choose|i: int|
            0 <= i < altered[archived]@.len() && (#[trigger] altered[archived]@[i]).relative_path@
                == path;
        assert(altered[archived]@[i].relative_path@ == path);
    }
}

/// Whether the listings differ at most in what the archived source lists under a relative path that
/// the active source of the same home, which comes before it, lists too.
pub open spec fn are_listings_but_for_copy(
    usage_sources: Seq<CodexUsageSource>,
    listings: Seq<Vec<SessionFile>>,
    altered: Seq<Vec<SessionFile>>,
    active: int,
    archived: int,
    relative_path: Seq<char>,
) -> bool {
    &&& listings.len() == usage_sources.len()
    &&& altered.len() == usage_sources.len()
    &&& 0 <= active < archived < usage_sources.len()
    &&& usage_sources[active].home@ == usage_sources[archived].home@
    &&& logs::holds_path(listings[active]@, relative_path)
    &&& forall|i: int|
        0 <= i < listings.len() && i != archived ==> (#[trigger] listings[i])@ == altered[i]@
    &&& without_path(listings[archived]@, relative_path) == without_path(
        altered[archived]@,
        relative_path,
    )
}

/// Which logs are read does not depend on what an archived source lists under a relative path that
/// the active source of its home lists too.
pub proof fn law_archived_copies_are_not_read(
    usage_sources: Seq<CodexUsageSource>,
    listings: Seq<Vec<SessionFile>>,
    altered: Seq<Vec<SessionFile>>,
    active: int,
    archived: int,
    relative_path: Seq<char>,
)
    requires
        are_listings_but_for_copy(
            usage_sources,
            listings,
            altered,
            active,
            archived,
            relative_path,
        ),
    ensures
        sources::deduped_groups(usage_sources, listings) == sources::deduped_groups(
            usage_sources,
            altered,
        ),
{
    let groups = sources::deduped_groups(usage_sources, listings);
    let altered_groups = sources::deduped_groups(usage_sources, altered);
    assert(listings[active]@ == altered[active]@);
    assert forall|i: int| 0 <= i < groups.len() implies #[trigger] groups[i]
        == altered_groups[i] by {
        let taken = taken_before(usage_sources, listings, i);
        let altered_taken = taken_before(usage_sources, altered, i);
        assert forall|path: Seq<char>| #[trigger] taken(path) == altered_taken(path) by {
            if taken(path) {
                lemma_taken_without_archived_copy(
                    usage_sources,
                    listings,
                    altered,
                    active,
                    archived,
                    relative_path,
                    i,
                    path,
                );
            }
            if altered_taken(path) {
                lemma_taken_without_archived_copy(
                    usage_sources,
                    altered,
                    listings,
                    active,
                    archived,
                    relative_path,
                    i,
                    path,
                );
            }
        }
        assert(taken =~= altered_taken);
        lemma_kept_by_taken(usage_sources, listings, i, listings[i]@.len() as int);
        lemma_kept_by_taken(usage_sources, altered, i, altered[i]@.len() as int);
        assert(listings[i]@.take(listings[i]@.len() as int) =~= listings[i]@);
        assert(altered[i]@.take(altered[i]@.len() as int) =~= altered[i]@);
        if i == archived {
            let at = choose|at: int|
                0 <= at < listings[active]@.len() && (
                #[trigger] listings[active]@[at]).relative_path@ == relative_path;
            assert(listings[active]@[at].relative_path@ == relative_path);
            assert(taken(relative_path));
            lemma_taken_path_does_not_matter(taken, listings[i]@, relative_path);
            lemma_taken_path_does_not_matter(taken, altered[i]@, relative_path);
        }
    }
    assert(groups =~= altered_groups);
}

/// Whether what is found under directories by `collect_files` is found by `other_files` too, but
/// for the logs of the given relative path under the given directory.
pub open spec fn lists_all_but_copy<Collect, OtherCollect>(
    collect_files: Collect,
    other_files: OtherCollect,
    archived_dir: Seq<char>,
    relative_path: Seq<char>,
) -> bool where
    Collect: Fn(&String) -> Vec<SessionFile>,
    OtherCollect: Fn(&String) -> Vec<SessionFile>,
 {
    forall|dir: &String, listing: Vec<SessionFile>| #[trigger]
        collect_files.ensures((dir,), listing) ==> if dir@ != archived_dir {
            other_files.ensures((dir,), listing)
        } else {
            exists|other: Vec<SessionFile>| #[trigger]
                other_files.ensures((dir,), other) && without_path(listing@, relative_path)
                    == without_path(other@, relative_path)
        }
}

/// Whether a log is the archived copy: one of the given relative path under the given directory.
pub open spec fn is_copy(
    dir: Seq<char>,
    file: SessionFile,
    archived_dir: Seq<char>,
    relative_path: Seq<char>,
) -> bool {
    dir == archived_dir && file.relative_path@ == relative_path
}

/// Whether the archived copy is among the logs of some groups.
pub open spec fn groups_hold_copy(
    groups: Seq<CodexUsageGroup>,
    archived_dir: Seq<char>,
    relative_path: Seq<char>,
) -> bool {
    exists|i: int|
        0 <= i < groups.len() && (#[trigger] groups[i]).dir@ == archived_dir && logs::holds_path(
            groups[i].files@,
            relative_path,
        )
}

/// Whether two ways to reach the logs differ at most in the archived copy: in whether and how it is
/// listed, and in what comes of planning, visiting or handing out logs among which it is.
pub open spec fn differ_in_copy<
    Plan,
    Prefix,
    Collect,
    OtherCollect,
    Planner,
    OtherPlanner,
    Lookup,
    Visit,
    OtherVisit,
    Work,
    OtherWork,
>(
    access: CodexLogAccess<Collect, Planner, Lookup, Visit, Work>,
    other: CodexLogAccess<OtherCollect, OtherPlanner, Lookup, OtherVisit, OtherWork>,
    archived_dir: Seq<char>,
    relative_path: Seq<char>,
) -> bool where
    Collect: Fn(&String) -> Vec<SessionFile>,
    OtherCollect: Fn(&String) -> Vec<SessionFile>,
    Planner: Fn(&Vec<CodexUsageGroup>, bool) -> Plan,
    OtherPlanner: Fn(&Vec<CodexUsageGroup>, bool) -> Plan,
    Lookup: Fn(&Plan, &SessionFile) -> Prefix,
    Visit: Fn(&String, &SessionFile, Prefix) -> SessionVisit,
    OtherVisit: Fn(&String, &SessionFile, Prefix) -> SessionVisit,
    Work: Fn(&String, &Vec<SessionFile>, &Plan, &Vec<Vec<usize>>) -> Vec<LoadedFile>,
    OtherWork: Fn(&String, &Vec<SessionFile>, &Plan, &Vec<Vec<usize>>) -> Vec<LoadedFile>,
 {
    &&& lists_all_but_copy(
        access.collect_files,
        other.collect_files,
        archived_dir,
        relative_path,
    )
    &&& lists_all_but_copy(
        other.collect_files,
        access.collect_files,
        archived_dir,
        relative_path,
    )
    &&& forall|groups: &Vec<CodexUsageGroup>, single_thread: bool, plan: Plan|
        #![trigger access.plan_replay.ensures((groups, single_thread), plan)]
        #![trigger other.plan_replay.ensures((groups, single_thread), plan)]
        !groups_hold_copy(groups@, archived_dir, relative_path) ==> (access.plan_replay.ensures(
            (groups, single_thread),
            plan,
        ) <==> other.plan_replay.ensures((groups, single_thread), plan))
    &&& access.replay_prefix == other.replay_prefix
    &&& forall|dir: &String, file: &SessionFile, prefix: Prefix, visit: SessionVisit|
        #![trigger access.visit_file.ensures((dir, file, prefix), visit)]
        #![trigger other.visit_file.ensures((dir, file, prefix), visit)]
        !is_copy(dir@, *file, archived_dir, relative_path) ==> (access.visit_file.ensures(
            (dir, file, prefix),
            visit,
        ) <==> other.visit_file.ensures((dir, file, prefix), visit))
    &&& forall|
        dir: &String,
        files: &Vec<SessionFile>,
        plan: &Plan,
        chunks: &Vec<Vec<usize>>,
        loaded: Vec<LoadedFile>,
    |
        #![trigger access.run_workers.ensures((dir, files, plan, chunks), loaded)]
        #![trigger other.run_workers.ensures((dir, files, plan, chunks), loaded)]
        !(dir@ == archived_dir && logs::holds_path(files@, relative_path)) ==> (
        access.run_workers.ensures((dir, files, plan, chunks), loaded)
            <==> other.run_workers.ensures((dir, files, plan, chunks), loaded))
    &&& access.available_parallelism == other.available_parallelism
}

/// Whether `archived` is a source among others, the only one of its directory, and `active` one of
/// the same home that comes before it and lists the given relative path whenever it is listed.
pub open spec fn has_active_log<Collect>(
    collect_files: Collect,
    usage_sources: Seq<CodexUsageSource>,
    active: int,
    archived: int,
    relative_path: Seq<char>,
) -> bool where Collect: Fn(&String) -> Vec<SessionFile> {
    &&& 0 <= active < archived < usage_sources.len()
    &&& usage_sources[active].home@ == usage_sources[archived].home@
    &&& forall|i: int|
        0 <= i < usage_sources.len() && i != archived ==> (#[trigger] usage_sources[i]).dir@
            != usage_sources[archived].dir@
    &&& forall|listing: Vec<SessionFile>| #[trigger]
        collect_files.ensures((&usage_sources[active].dir,), listing) ==> logs::holds_path(
            listing@,
            relative_path,
        )
}

/// The groups that are read by one way to reach the logs are read by the other, and do not hold the
/// archived copy.
proof fn lemma_groups_without_copy<Collect, OtherCollect>(
    collect_files: Collect,
    other_files: OtherCollect,
    usage_sources: Seq<CodexUsageSource>,
    active: int,
    archived: int,
    relative_path: Seq<char>,
    groups: &Vec<CodexUsageGroup>,
) where
    Collect: Fn(&String) -> Vec<SessionFile>,
    OtherCollect: Fn(&String) -> Vec<SessionFile>,

    requires
        has_active_log(collect_files, usage_sources, active, archived, relative_path),
        lists_all_but_copy(
            collect_files,
            other_files,
            usage_sources[archived].dir@,
            relative_path,
        ),
        loader::are_source_groups(collect_files, usage_sources, groups),
    ensures
        loader::are_source_groups(other_files, usage_sources, groups),
        !groups_hold_copy(groups@, usage_sources[archived].dir@, relative_path),
{
    let listings = choose|listings: Seq<Vec<SessionFile>>|
        {
            &&& #[trigger] loader::are_listings(collect_files, usage_sources, listings)
            &&& sources::group_views(groups@) == sources::deduped_groups(usage_sources, listings)
        };
    let dir = &usage_sources[archived].dir;
    assert(collect_files.ensures((dir,), listings[archived]));
    let copy = choose|other: Vec<SessionFile>| #[trigger]
        other_files.ensures((dir,), other) && without_path(
            listings[archived]@,
            relative_path,
        ) == without_path(other@, relative_path);
    let altered = listings.update(archived, copy);
    assert forall|i: int| 0 <= i < altered.len() implies other_files.ensures(
        (&usage_sources[i].dir,),
        #[trigger] altered[i],
    ) by {
        if i != archived {
            assert(collect_files.ensures((&usage_sources[i].dir,), listings[i]));
        }
    }
    assert(loader::are_listings(other_files, usage_sources, altered));
    assert(collect_files.ensures((&usage_sources[active].dir,), listings[active]));
    law_archived_copies_are_not_read(
        usage_sources,
        listings,
        altered,
        active,
        archived,
        relative_path,
    );
    logs::law_active_copy_wins(usage_sources, listings, active, archived, relative_path);
    if groups_hold_copy(groups@, dir@, relative_path) {
        let i = choose|i: int|
            0 <= i < groups@.len() && (#[trigger] groups@[i]).dir@ == dir@ && logs::holds_path(
                groups@[i].files@,
                relative_path,
            );
        let views = sources::group_views(groups@);
        assert(views.len() == groups@.len());
        assert(views[i] == groups@[i]@);
        assert(views[i].dir == usage_sources[i].dir@);
        assert(i == archived);
        let k = choose|k: int|
            0 <= k < groups@[i].files@.len() && (#[trigger] groups@[i].files@[k]).relative_path@
                == relative_path;
        assert(views[i].files[k].relative_path@ == relative_path);
        assert(logs::holds_path(views[i].files, relative_path));
    }
}

/// A load by one way to reach the logs is a load by the other.
proof fn lemma_load_without_copy<
    Plan,
    Prefix,
    Collect,
    OtherCollect,
    Planner,
    OtherPlanner,
    Lookup,
    Visit,
    OtherVisit,
    Work,
    OtherWork,
>(
    access: CodexLogAccess<Collect, Planner, Lookup, Visit, Work>,
    other: CodexLogAccess<OtherCollect, OtherPlanner, Lookup, OtherVisit, OtherWork>,
    single_thread: bool,
    usage_sources: Seq<CodexUsageSource>,
    active: int,
    archived: int,
    relative_path: Seq<char>,
    events: Seq<CodexTokenUsageEvent>,
) where
    Collect: Fn(&String) -> Vec<SessionFile>,
    OtherCollect: Fn(&String) -> Vec<SessionFile>,
    Planner: Fn(&Vec<CodexUsageGroup>, bool) -> Plan,
    OtherPlanner: Fn(&Vec<CodexUsageGroup>, bool) -> Plan,
    Lookup: Fn(&Plan, &SessionFile) -> Prefix,
    Visit: Fn(&String, &SessionFile, Prefix) -> SessionVisit,
    OtherVisit: Fn(&String, &SessionFile, Prefix) -> SessionVisit,
    Work: Fn(&String, &Vec<SessionFile>, &Plan, &Vec<Vec<usize>>) -> Vec<LoadedFile>,
    OtherWork: Fn(&String, &Vec<SessionFile>, &Plan, &Vec<Vec<usize>>) -> Vec<LoadedFile>,

    requires
        differ_in_copy(access, other, usage_sources[archived].dir@, relative_path),
        has_active_log(access.collect_files, usage_sources, active, archived, relative_path),
        loader::is_sources_load(access, single_thread, usage_sources, events),
    ensures
        loader::is_sources_load(other, single_thread, usage_sources, events),
{
    let dir = usage_sources[archived].dir@;
    let groups = choose|groups: Vec<CodexUsageGroup>|
        loader::are_source_groups(access.collect_files, usage_sources, &groups)
            && #[trigger] loader::is_load_of_groups_by(
            access,
            single_thread,
            single_thread,
            &groups,
            events,
        );
    lemma_groups_without_copy(
        access.collect_files,
        other.collect_files,
        usage_sources,
        active,
        archived,
        relative_path,
        &groups,
    );
    let (plan, readings) = choose|plan: Plan, readings: Seq<Seq<CodexTokenUsageEvent>>| #[trigger]
        loader::is_load_from(
            access,
            single_thread,
            single_thread,
            &groups,
            plan,
            readings,
            events,
        );
    assert(other.plan_replay.ensures((&groups, single_thread), plan));
    assert forall|i: int| 0 <= i < readings.len() implies loader::is_group_reading(
        other,
        single_thread,
        &groups@[i],
        &plan,
        #[trigger] readings[i],
    ) by {
        assert(!(groups@[i].dir@ == dir && logs::holds_path(groups@[i].files@, relative_path)));
        lemma_reading_without_copy(
            access,
            other,
            single_thread,
            dir,
            relative_path,
            &groups@[i],
            &plan,
            readings[i],
        );
    }
    assert(loader::is_load_from(
        other,
        single_thread,
        single_thread,
        &groups,
        plan,
        readings,
        events,
    ));
    assert(loader::is_load_of_groups_by(other, single_thread, single_thread, &groups, events));
}

/// A reading of a group without the archived copy is a reading by the other way to reach the logs.
proof fn lemma_reading_without_copy<
    Plan,
    Prefix,
    Collect,
    OtherCollect,
    Planner,
    OtherPlanner,
    Lookup,
    Visit,
    OtherVisit,
    Work,
    OtherWork,
>(
    access: CodexLogAccess<Collect, Planner, Lookup, Visit, Work>,
    other: CodexLogAccess<OtherCollect, OtherPlanner, Lookup, OtherVisit, OtherWork>,
    single_thread: bool,
    archived_dir: Seq<char>,
    relative_path: Seq<char>,
    group: &CodexUsageGroup,
    plan: &Plan,
    events: Seq<CodexTokenUsageEvent>,
) where
    Collect: Fn(&String) -> Vec<SessionFile>,
    OtherCollect: Fn(&String) -> Vec<SessionFile>,
    Planner: Fn(&Vec<CodexUsageGroup>, bool) -> Plan,
    OtherPlanner: Fn(&Vec<CodexUsageGroup>, bool) -> Plan,
    Lookup: Fn(&Plan, &SessionFile) -> Prefix,
    Visit: Fn(&String, &SessionFile, Prefix) -> SessionVisit,
    OtherVisit: Fn(&String, &SessionFile, Prefix) -> SessionVisit,
    Work: Fn(&String, &Vec<SessionFile>, &Plan, &Vec<Vec<usize>>) -> Vec<LoadedFile>,
    OtherWork: Fn(&String, &Vec<SessionFile>, &Plan, &Vec<Vec<usize>>) -> Vec<LoadedFile>,

    requires
        differ_in_copy(access, other, archived_dir, relative_path),
        !(group.dir@ == archived_dir && logs::holds_path(group.files@, relative_path)),
        loader::is_group_reading(access, single_thread, group, plan, events),
    ensures
        loader::is_group_reading(other, single_thread, group, plan, events),
{
    let workers = schedule::worker_count_spec(access.available_parallelism, group.files@.len());
    if single_thread || workers <= 1 {
        let readings = choose|readings: Seq<Seq<CodexTokenUsageEvent>>|
            {
                &&& readings.len() == group.files@.len()
                &&& forall|i: int|
                    0 <= i < readings.len() ==> reading::is_file_reading(
                        access.replay_prefix,
                        access.visit_file,
                        &group.dir,
                        &group.files@[i],
                        plan,
                        #[trigger] readings[i],
                    )
                &&& #[trigger] readings.flatten() == events
            };
        assert forall|i: int| 0 <= i < readings.len() implies reading::is_file_reading(
            other.replay_prefix,
            other.visit_file,
            &group.dir,
            &group.files@[i],
            plan,
            #[trigger] readings[i],
        ) by {
            let file = &group.files@[i];
            assert(reading::is_file_reading(
                access.replay_prefix,
                access.visit_file,
                &group.dir,
                file,
                plan,
                readings[i],
            ));
            let (prefix, visit) = choose|prefix: Prefix, visit: SessionVisit|
                access.replay_prefix.ensures((plan, file), prefix)
                    && #[trigger] access.visit_file.ensures((&group.dir, file, prefix), visit)
                    && visit.events@ == readings[i];
            assert(group.files@[i].relative_path@ == file.relative_path@);
            assert(!is_copy(group.dir@, *file, archived_dir, relative_path));
            assert(other.visit_file.ensures((&group.dir, file, prefix), visit));
        }
        assert(readings.flatten() == events);
    } else {
        let (chunks, loaded) = choose|chunks: Vec<Vec<usize>>, loaded: Vec<LoadedFile>|
            {
                &&& schedule::chunk_views(chunks@) == schedule::chunks_by_size(
                    group.files@,
                    workers,
                    group.files@.len(),
                )
                &&& schedule::is_chunking(group.files@, workers, chunks@)
                &&& #[trigger] access.run_workers.ensures(
                    (&group.dir, &group.files, plan, &chunks),
                    loaded,
                )
                &&& reading::merged_files(group.files@.len(), loaded@) == events
            };
        assert(other.run_workers.ensures((&group.dir, &group.files, plan, &chunks), loaded));
    }
}

/// What an archived log holds does not matter to a load where the active sessions of its home have
/// a log of the same relative path: ways to reach the logs that differ at most in that copy load
/// the same.
pub proof fn law_archived_copies_do_not_matter<
    Plan,
    Prefix,
    Collect,
    OtherCollect,
    Planner,
    OtherPlanner,
    Lookup,
    Visit,
    OtherVisit,
    Work,
    OtherWork,
>(
    access: CodexLogAccess<Collect, Planner, Lookup, Visit, Work>,
    other: CodexLogAccess<OtherCollect, OtherPlanner, Lookup, OtherVisit, OtherWork>,
    single_thread: bool,
    usage_sources: Seq<CodexUsageSource>,
    active: int,
    archived: int,
    relative_path: Seq<char>,
    events: Seq<CodexTokenUsageEvent>,
) where
    Collect: Fn(&String) -> Vec<SessionFile>,
    OtherCollect: Fn(&String) -> Vec<SessionFile>,
    Planner: Fn(&Vec<CodexUsageGroup>, bool) -> Plan,
    OtherPlanner: Fn(&Vec<CodexUsageGroup>, bool) -> Plan,
    Lookup: Fn(&Plan, &SessionFile) -> Prefix,
    Visit: Fn(&String, &SessionFile, Prefix) -> SessionVisit,
    OtherVisit: Fn(&String, &SessionFile, Prefix) -> SessionVisit,
    Work: Fn(&String, &Vec<SessionFile>, &Plan, &Vec<Vec<usize>>) -> Vec<LoadedFile>,
    OtherWork: Fn(&String, &Vec<SessionFile>, &Plan, &Vec<Vec<usize>>) -> Vec<LoadedFile>,

    requires
        differ_in_copy(access, other, usage_sources[archived].dir@, relative_path),
        has_active_log(access.collect_files, usage_sources, active, archived, relative_path),
    ensures
        loader::is_sources_load(access, single_thread, usage_sources, events)
            <==> loader::is_sources_load(other, single_thread, usage_sources, events),
{
    if loader::is_sources_load(access, single_thread, usage_sources, events) {
        lemma_load_without_copy(
            access,
            other,
            single_thread,
            usage_sources,
            active,
            archived,
            relative_path,
            events,
        );
    }
    if loader::is_sources_load(other, single_thread, usage_sources, events) {
        assert(has_active_log(
            other.collect_files,
            usage_sources,
            active,
            archived,
            relative_path,
        ));
        lemma_load_without_copy(
            other,
            access,
            single_thread,
            usage_sources,
            active,
            archived,
            relative_path,
            events,
        );
    }
}

/// What an archived log holds does not change what is loaded, where the active sessions of its home
/// have a log of the same relative path, each function has one outcome and the workers read their
/// chunks.
pub proof fn law_archived_copies_do_not_change_loads<
    Plan,
    Prefix,
    Collect,
    OtherCollect,
    Planner,
    OtherPlanner,
    Lookup,
    Visit,
    OtherVisit,
    Work,
    OtherWork,
>(
    access: CodexLogAccess<Collect, Planner, Lookup, Visit, Work>,
    thread: bool,
    events: Seq<CodexTokenUsageEvent>,
    other: CodexLogAccess<OtherCollect, OtherPlanner, Lookup, OtherVisit, OtherWork>,
    other_thread: bool,
    other_events: Seq<CodexTokenUsageEvent>,
    usage_sources: Seq<CodexUsageSource>,
    active: int,
    archived: int,
    relative_path: Seq<char>,
) where
    Collect: Fn(&String) -> Vec<SessionFile>,
    OtherCollect: Fn(&String) -> Vec<SessionFile>,
    Planner: Fn(&Vec<CodexUsageGroup>, bool) -> Plan,
    OtherPlanner: Fn(&Vec<CodexUsageGroup>, bool) -> Plan,
    Lookup: Fn(&Plan, &SessionFile) -> Prefix,
    Visit: Fn(&String, &SessionFile, Prefix) -> SessionVisit,
    OtherVisit: Fn(&String, &SessionFile, Prefix) -> SessionVisit,
    Work: Fn(&String, &Vec<SessionFile>, &Plan, &Vec<Vec<usize>>) -> Vec<LoadedFile>,
    OtherWork: Fn(&String, &Vec<SessionFile>, &Plan, &Vec<Vec<usize>>) -> Vec<LoadedFile>,

    requires
        threads::has_one_outcome(access),
        loader::workers_read_their_chunks(access),
        differ_in_copy(access, other, usage_sources[archived].dir@, relative_path),
        has_active_log(access.collect_files, usage_sources, active, archived, relative_path),
        loader::is_sources_load(access, thread, usage_sources, events),
        loader::is_sources_load(other, other_thread, usage_sources, other_events),
    ensures
        events == other_events,
{
    law_archived_copies_do_not_matter(
        access,
        other,
        other_thread,
        usage_sources,
        active,
        archived,
        relative_path,
        other_events,
    );
    threads::law_sources_loads_are_equal(
        access,
        usage_sources,
        thread,
        events,
        other_thread,
        other_events,
    );
}

} // verus!

//! Laws of the replay plan: one plan spans the logs of all sources.

use vstd::prelude::*;

use crate::dedupe;
use crate::event::CodexTokenUsageEvent;
use crate::key;
use crate::laws::lists;
use crate::laws::loads;
use crate::laws::logs;
use crate::laws::threads;
use crate::loader;
use crate::loader::CodexLogAccess;
use crate::reading;
use crate::reading::{LoadedFile, SessionVisit};
use crate::sources;
use crate::sources::{CodexUsageGroup, CodexUsageSource, SessionFile};

verus! {

/// Whether a log is among the logs of some groups.
pub open spec fn groups_hold(groups: Seq<CodexUsageGroup>, file: SessionFile) -> bool {
    exists|i: int| 0 <= i < groups.len() && (#[trigger] groups[i]).files@.contains(file)
}

/// Whether a plan that is made for groups among whose logs are `child` and `parent`, in whichever
/// of the groups, has `prefix` for the child.
pub open spec fn finds_parent<Plan, Prefix, Collect, Planner, Lookup, Visit, Work>(
    access: CodexLogAccess<Collect, Planner, Lookup, Visit, Work>,
    child: SessionFile,
    parent: SessionFile,
    prefix: Prefix,
) -> bool where
    Collect: Fn(&String) -> Vec<SessionFile>,
    Planner: Fn(&Vec<CodexUsageGroup>, bool) -> Plan,
    Lookup: Fn(&Plan, &SessionFile) -> Prefix,
    Visit: Fn(&String, &SessionFile, Prefix) -> SessionVisit,
    Work: Fn(&String, &Vec<SessionFile>, &Plan, &Vec<Vec<usize>>) -> Vec<LoadedFile>,
 {
    forall|groups: &Vec<CodexUsageGroup>, single_thread: bool, plan: Plan, found: Prefix|
        groups_hold(groups@, child) && groups_hold(groups@, parent)
            && #[trigger] access.plan_replay.ensures((groups, single_thread), plan)
            && #[trigger] access.replay_prefix.ensures((&plan, &child), found) ==> found == prefix
}

/// Whether the given source is always found to hold a log, and the log is read of it.
pub open spec fn source_reads<Collect>(
    collect_files: Collect,
    usage_sources: Seq<CodexUsageSource>,
    source: int,
    file: SessionFile,
) -> bool where Collect: Fn(&String) -> Vec<SessionFile> {
    forall|groups: Vec<CodexUsageGroup>| #[trigger]
        loader::are_source_groups(collect_files, usage_sources, &groups) ==> 0 <= source
            < groups@.len() && groups@[source].files@.contains(file)
}

/// Whether `events` is what a visit of a log comes across that is started with `prefix`.
pub open spec fn is_visit_from<Prefix, Visit>(
    visit_file: Visit,
    dir: &String,
    file: &SessionFile,
    prefix: Prefix,
    events: Seq<CodexTokenUsageEvent>,
) -> bool where Visit: Fn(&String, &SessionFile, Prefix) -> SessionVisit {
    exists|visit: SessionVisit| #[trigger]
        visit_file.ensures((dir, file, prefix), visit) && visit.events@ == events
}

/// Whether `files_read` holds a reading of each log of the group at `group`, in their order.
pub open spec fn are_files_read<Plan, Prefix, Collect, Planner, Lookup, Visit, Work>(
    access: CodexLogAccess<Collect, Planner, Lookup, Visit, Work>,
    groups: Seq<CodexUsageGroup>,
    plan: Plan,
    group: int,
    files_read: Seq<Seq<CodexTokenUsageEvent>>,
) -> bool where
    Collect: Fn(&String) -> Vec<SessionFile>,
    Planner: Fn(&Vec<CodexUsageGroup>, bool) -> Plan,
    Lookup: Fn(&Plan, &SessionFile) -> Prefix,
    Visit: Fn(&String, &SessionFile, Prefix) -> SessionVisit,
    Work: Fn(&String, &Vec<SessionFile>, &Plan, &Vec<Vec<usize>>) -> Vec<LoadedFile>,
 {
    &&& files_read.len() == groups[group].files@.len()
    &&& forall|i: int|
        0 <= i < files_read.len() ==> reading::is_file_reading(
            access.replay_prefix,
            access.visit_file,
            &groups[group].dir,
            &groups[group].files@[i],
            &plan,
            #[trigger] files_read[i],
        )
}

/// The parent of a log is found in whichever source it is: where a plan has one prefix for a child
/// whenever child and parent are among the logs that it is made for, a load of sources that read
/// the child and the parent, of one source or of two, reads the child by a visit that is started
/// with that prefix.
///
/// The law hands back the groups that are read, the plan, the readings of the groups, and what is
/// read of each log of the child's source.
pub proof fn law_parent_is_found_in_any_source<Plan, Prefix, Collect, Planner, Lookup, Visit, Work>(
    access: CodexLogAccess<Collect, Planner, Lookup, Visit, Work>,
    single_thread: bool,
    usage_sources: Seq<CodexUsageSource>,
    events: Seq<CodexTokenUsageEvent>,
    child_source: int,
    child: SessionFile,
    parent_source: int,
    parent: SessionFile,
    prefix: Prefix,
) -> (read: (
    Vec<CodexUsageGroup>,
    Plan,
    Seq<Seq<CodexTokenUsageEvent>>,
    Seq<Seq<CodexTokenUsageEvent>>,
)) where
    Collect: Fn(&String) -> Vec<SessionFile>,
    Planner: Fn(&Vec<CodexUsageGroup>, bool) -> Plan,
    Lookup: Fn(&Plan, &SessionFile) -> Prefix,
    Visit: Fn(&String, &SessionFile, Prefix) -> SessionVisit,
    Work: Fn(&String, &Vec<SessionFile>, &Plan, &Vec<Vec<usize>>) -> Vec<LoadedFile>,

    requires
        loader::workers_read_their_chunks(access),
        finds_parent(access, child, parent, prefix),
        source_reads(access.collect_files, usage_sources, child_source, child),
        source_reads(access.collect_files, usage_sources, parent_source, parent),
        loader::is_sources_load(access, single_thread, usage_sources, events),
    ensures
        loader::are_source_groups(access.collect_files, usage_sources, &read.0),
        loader::is_load_from(access, single_thread, true, &read.0, read.1, read.2, events),
        are_files_read(access, read.0@, read.1, child_source, read.3),
        read.3.flatten() == read.2[child_source],
        read.0@[child_source].files@.contains(child),
        forall|at: int|
            0 <= at < read.3.len() && read.0@[child_source].files@[at] == child ==> is_visit_from(
                access.visit_file,
                &read.0@[child_source].dir,
                &child,
                prefix,
                #[trigger] read.3[at],
            ),
        forall|at: int, k: int|
            #![trigger read.3[at][k]]
            0 <= at < read.3.len() && 0 <= k < read.3[at].len() ==> dedupe::has_copy(
                events,
                key::key_of(read.3[at][k]),
            ),
{
    let (groups, plan, readings) = threads::lemma_load_in_order(
        access,
        single_thread,
        usage_sources,
        events,
    );
    let group = &groups@[child_source];
    assert(groups@[parent_source].files@.contains(parent));
    assert(group.files@.contains(child));
    assert(loader::is_group_reading(access, true, group, &plan, readings[child_source]));
    let files_read = choose|files_read: Seq<Seq<CodexTokenUsageEvent>>|
        {
            &&& files_read.len() == group.files@.len()
            &&& forall|i: int|
                0 <= i < files_read.len() ==> reading::is_file_reading(
                    access.replay_prefix,
                    access.visit_file,
                    &group.dir,
                    &group.files@[i],
                    &plan,
                    #[trigger] files_read[i],
                )
            &&& #[trigger] files_read.flatten() == readings[child_source]
        };
    assert forall|at: int| 0 <= at < files_read.len() && group.files@[at] == child implies
        is_visit_from(
        access.visit_file,
        &group.dir,
        &child,
        prefix,
        #[trigger] files_read[at],
    ) by {
        lemma_child_starts_with_prefix(
            access,
            &groups,
            single_thread,
            &plan,
            &group.dir,
            files_read[at],
            child,
            parent,
            prefix,
        );
    }
    let all = readings.flatten();
    dedupe::lemma_deduped_keys(all);
    assert forall|at: int, k: int|
        #![trigger files_read[at][k]]
        0 <= at < files_read.len() && 0 <= k < files_read[at].len() implies dedupe::has_copy(
        events,
        key::key_of(files_read[at][k]),
    ) by {
        let event = files_read[at][k];
        lists::lemma_flatten_holds(files_read, at, k);
        let j = choose|j: int|
            0 <= j < readings[child_source].len() && readings[child_source][j] == event;
        lists::lemma_flatten_holds(readings, child_source, j);
        let i = choose|i: int| 0 <= i < all.len() && all[i] == event;
        assert(key::key_of(all[i]) == key::key_of(event));
        assert(dedupe::has_copy(all, key::key_of(event)));
    }
    (groups, plan, readings, files_read)
}

/// A reading of a child by a plan that finds its parent.
proof fn lemma_child_starts_with_prefix<Plan, Prefix, Collect, Planner, Lookup, Visit, Work>(
    access: CodexLogAccess<Collect, Planner, Lookup, Visit, Work>,
    groups: &Vec<CodexUsageGroup>,
    single_thread: bool,
    plan: &Plan,
    dir: &String,
    events: Seq<CodexTokenUsageEvent>,
    child: SessionFile,
    parent: SessionFile,
    prefix: Prefix,
) where
    Collect: Fn(&String) -> Vec<SessionFile>,
    Planner: Fn(&Vec<CodexUsageGroup>, bool) -> Plan,
    Lookup: Fn(&Plan, &SessionFile) -> Prefix,
    Visit: Fn(&String, &SessionFile, Prefix) -> SessionVisit,
    Work: Fn(&String, &Vec<SessionFile>, &Plan, &Vec<Vec<usize>>) -> Vec<LoadedFile>,

    requires
        finds_parent(access, child, parent, prefix),
        access.plan_replay.ensures((groups, single_thread), *plan),
        groups_hold(groups@, child),
        groups_hold(groups@, parent),
        reading::is_file_reading(
            access.replay_prefix,
            access.visit_file,
            dir,
            &child,
            plan,
            events,
        ),
    ensures
        is_visit_from(access.visit_file, dir, &child, prefix, events),
{
    let (found, visit) = choose|found: Prefix, visit: SessionVisit|
        access.replay_prefix.ensures((plan, &child), found)
            && #[trigger] access.visit_file.ensures((dir, &child, found), visit)
            && visit.events@ == events;
    assert(found == prefix);
}

/// A log is read alike wherever its parent is: by the plan of groups in which the parent is in
/// another group, and by the plan of groups in which it is in the same one.
pub proof fn law_child_is_read_alike_wherever_its_parent_is<
    Plan,
    Prefix,
    Collect,
    Planner,
    Lookup,
    Visit,
    Work,
>(
    access: CodexLogAccess<Collect, Planner, Lookup, Visit, Work>,
    left_groups: &Vec<CodexUsageGroup>,
    left_thread: bool,
    left_plan: &Plan,
    left_dir: &String,
    left_events: Seq<CodexTokenUsageEvent>,
    right_groups: &Vec<CodexUsageGroup>,
    right_thread: bool,
    right_plan: &Plan,
    right_dir: &String,
    right_events: Seq<CodexTokenUsageEvent>,
    child: SessionFile,
    parent: SessionFile,
    prefix: Prefix,
) where
    Collect: Fn(&String) -> Vec<SessionFile>,
    Planner: Fn(&Vec<CodexUsageGroup>, bool) -> Plan,
    Lookup: Fn(&Plan, &SessionFile) -> Prefix,
    Visit: Fn(&String, &SessionFile, Prefix) -> SessionVisit,
    Work: Fn(&String, &Vec<SessionFile>, &Plan, &Vec<Vec<usize>>) -> Vec<LoadedFile>,

    requires
        threads::visits_the_same(access.visit_file),
        finds_parent(access, child, parent, prefix),
        access.plan_replay.ensures((left_groups, left_thread), *left_plan),
        groups_hold(left_groups@, child),
        groups_hold(left_groups@, parent),
        access.plan_replay.ensures((right_groups, right_thread), *right_plan),
        groups_hold(right_groups@, child),
        groups_hold(right_groups@, parent),
        left_dir@ == right_dir@,
        reading::is_file_reading(
            access.replay_prefix,
            access.visit_file,
            left_dir,
            &child,
            left_plan,
            left_events,
        ),
        reading::is_file_reading(
            access.replay_prefix,
            access.visit_file,
            right_dir,
            &child,
            right_plan,
            right_events,
        ),
    ensures
        left_events == right_events,
{
    lemma_child_starts_with_prefix(
        access,
        left_groups,
        left_thread,
        left_plan,
        left_dir,
        left_events,
        child,
        parent,
        prefix,
    );
    lemma_child_starts_with_prefix(
        access,
        right_groups,
        right_thread,
        right_plan,
        right_dir,
        right_events,
        child,
        parent,
        prefix,
    );
}

/// Whether what a plan has for a log depends only on which kin of the log, such as the sessions
/// that it is a fork of, are among the logs that the plan is made for.
pub open spec fn plans_by_kin<Plan, Prefix, Collect, Planner, Lookup, Visit, Work>(
    access: CodexLogAccess<Collect, Planner, Lookup, Visit, Work>,
    kin: spec_fn(SessionFile, SessionFile) -> bool,
) -> bool where
    Collect: Fn(&String) -> Vec<SessionFile>,
    Planner: Fn(&Vec<CodexUsageGroup>, bool) -> Plan,
    Lookup: Fn(&Plan, &SessionFile) -> Prefix,
    Visit: Fn(&String, &SessionFile, Prefix) -> SessionVisit,
    Work: Fn(&String, &Vec<SessionFile>, &Plan, &Vec<Vec<usize>>) -> Vec<LoadedFile>,
 {
    forall|
        left_groups: &Vec<CodexUsageGroup>,
        left_thread: bool,
        left_plan: Plan,
        right_groups: &Vec<CodexUsageGroup>,
        right_thread: bool,
        right_plan: Plan,
        file: &SessionFile,
    |
        #[trigger] access.plan_replay.ensures((left_groups, left_thread), left_plan)
            && #[trigger] access.plan_replay.ensures((right_groups, right_thread), right_plan)
            && groups_hold(left_groups@, *file) && groups_hold(right_groups@, *file)
            && #[trigger] hold_the_same_kin(kin, left_groups@, right_groups@, *file)
            ==> threads::plans_agree_on(access.replay_prefix, &left_plan, &right_plan, file)
}

/// Whether the same kin of a log are among the logs of two lists of groups.
pub open spec fn hold_the_same_kin(
    kin: spec_fn(SessionFile, SessionFile) -> bool,
    left: Seq<CodexUsageGroup>,
    right: Seq<CodexUsageGroup>,
    file: SessionFile,
) -> bool {
    forall|other: SessionFile|
        kin(file, other) ==> (#[trigger] groups_hold(left, other) <==> groups_hold(right, other))
}

/// Whether a log can be found under the directory of a source.
pub open spec fn is_found<Collect>(
    collect_files: Collect,
    usage_sources: Seq<CodexUsageSource>,
    file: SessionFile,
) -> bool where Collect: Fn(&String) -> Vec<SessionFile> {
    exists|i: int, listing: Vec<SessionFile>|
        0 <= i < usage_sources.len() && #[trigger] collect_files.ensures(
            (&usage_sources[i].dir,),
            listing,
        ) && listing@.contains(file)
}

/// Whether no log of the sources of one list is kin of a log of the sources of the other.
pub open spec fn share_no_kin<Collect>(
    collect_files: Collect,
    kin: spec_fn(SessionFile, SessionFile) -> bool,
    left: Seq<CodexUsageSource>,
    right: Seq<CodexUsageSource>,
) -> bool where Collect: Fn(&String) -> Vec<SessionFile> {
    forall|file: SessionFile, other: SessionFile| #[trigger]
        is_found(collect_files, left, file) && #[trigger] is_found(collect_files, right, other)
            ==> !kin(file, other) && !kin(other, file)
}

/// The logs of a group that a deduped source has are found under its directory.
proof fn lemma_kept_is_found<Collect>(
    collect_files: Collect,
    usage_sources: Seq<CodexUsageSource>,
    listings: Seq<Vec<SessionFile>>,
    source: int,
    file: SessionFile,
) where Collect: Fn(&String) -> Vec<SessionFile>
    requires
        loader::are_listings(collect_files, usage_sources, listings),
        0 <= source < usage_sources.len(),
        sources::deduped_groups(usage_sources, listings)[source].files.contains(file),
    ensures
        listings[source]@.contains(file),
        is_found(collect_files, usage_sources, file),
{
    let files = sources::deduped_groups(usage_sources, listings)[source].files;
    let k = choose|k: int| 0 <= k < files.len() && files[k] == file;
    let origin = logs::lemma_kept_file_origin(
        usage_sources,
        listings,
        source,
        listings[source]@.len() as int,
        k,
    );
    assert(listings[source]@[origin] == file);
    assert(collect_files.ensures((&usage_sources[source].dir,), listings[source]));
}

/// A log that a single source lists is kept of it, where its relative path names one log.
proof fn lemma_listed_is_kept(
    usage_sources: Seq<CodexUsageSource>,
    listings: Seq<Vec<SessionFile>>,
    file: SessionFile,
)
    requires
        usage_sources.len() == 1,
        listings.len() == 1,
        forall|i: int, j: int|
            0 <= i < j < listings[0]@.len() && (#[trigger] listings[0]@[i]).relative_path@ == (
            #[trigger] listings[0]@[j]).relative_path@ ==> listings[0]@[i] == listings[0]@[j],
        listings[0]@.contains(file),
    ensures
        sources::deduped_groups(usage_sources, listings)[0].files.contains(file),
{
    let files = sources::deduped_groups(usage_sources, listings)[0].files;
    let at = choose|at: int| 0 <= at < listings[0]@.len() && listings[0]@[at] == file;
    assert(logs::holds_path(listings[0]@, file.relative_path@));
    let reader = logs::law_every_path_is_read(usage_sources, listings, 0, file.relative_path@);
    let k = choose|k: int|
        0 <= k < files.len() && (#[trigger] files[k]).relative_path@ == file.relative_path@;
    let origin = logs::lemma_kept_file_origin(
        usage_sources,
        listings,
        0,
        listings[0]@.len() as int,
        k,
    );
    assert(listings[0]@[origin].relative_path@ == listings[0]@[at].relative_path@);
    assert(files[k] == file);
}

/// The logs of the groups of a part of the sources, and those of the groups of all of them.
///
/// The groups of the part start at `offset` of the groups of all sources; those at
/// `other_offset` are of the other sources.
proof fn lemma_logs_of_part<Collect>(
    collect_files: Collect,
    part: Seq<CodexUsageSource>,
    part_listings: Seq<Vec<SessionFile>>,
    part_groups: &Vec<CodexUsageGroup>,
    other: Seq<CodexUsageSource>,
    other_listings: Seq<Vec<SessionFile>>,
    groups: &Vec<CodexUsageGroup>,
    offset: int,
    other_offset: int,
    file: SessionFile,
) where Collect: Fn(&String) -> Vec<SessionFile>
    requires
        threads::lists_the_same(collect_files),
        part.len() == 1 ==> loads::paths_name_one_log(collect_files, part[0]),
        loader::are_listings(collect_files, part, part_listings),
        loader::are_listings(collect_files, other, other_listings),
        loader::are_source_groups(collect_files, part, part_groups),
        groups@.len() == part.len() + other.len(),
        (offset == 0 && other_offset == part.len()) || (other_offset == 0 && offset
            == other.len()),
        forall|i: int|
            0 <= i < part.len() ==> groups@[offset + i]@ == #[trigger] sources::deduped_groups(
                part,
                part_listings,
            )[i],
        forall|i: int|
            0 <= i < other.len() ==> groups@[other_offset + i]@
                == #[trigger] sources::deduped_groups(other, other_listings)[i],
    ensures
        groups_hold(part_groups@, file) ==> groups_hold(groups@, file) && is_found(
            collect_files,
            part,
            file,
        ),
        groups_hold(groups@, file) ==> groups_hold(part_groups@, file) || is_found(
            collect_files,
            other,
            file,
        ),
{
    let views = sources::group_views(part_groups@);
    let kept = sources::deduped_groups(part, part_listings);
    assert(views.len() == part_groups@.len());
    if part.len() == 1 {
        let dir = &part[0].dir;
        let files = choose|files: Vec<SessionFile>|
            {
                &&& #[trigger] collect_files.ensures((dir,), files)
                &&& views == seq![sources::GroupView { dir: dir@, files: files@ }]
            };
        assert(views[0] == part_groups@[0]@);
        assert(collect_files.ensures((dir,), part_listings[0]));
        assert(part_groups@[0].files@ == part_listings[0]@);
    } else {
        let listings = choose|listings: Seq<Vec<SessionFile>>|
            {
                &&& #[trigger] loader::are_listings(collect_files, part, listings)
                &&& views == sources::deduped_groups(part, listings)
            };
        threads::lemma_listings_are_equal(collect_files, part, listings, part_listings);
        threads::lemma_groups_of_equal_listings(part, listings, part_listings);
        assert(views == kept);
    }
    if groups_hold(part_groups@, file) {
        let i = choose|i: int|
            0 <= i < part_groups@.len() && (#[trigger] part_groups@[i]).files@.contains(file);
        assert(views[i] == part_groups@[i]@);
        if part.len() == 1 {
            lemma_listed_is_kept(part, part_listings, file);
        }
        assert(kept[i].files.contains(file));
        lemma_kept_is_found(collect_files, part, part_listings, i, file);
        assert(groups@[offset + i].files@.contains(file));
    }
    if groups_hold(groups@, file) {
        let at = choose|at: int|
            0 <= at < groups@.len() && (#[trigger] groups@[at]).files@.contains(file);
        if offset <= at < offset + part.len() {
            let i = at - offset;
            assert(groups@[offset + i]@ == kept[i]);
            lemma_kept_is_found(collect_files, part, part_listings, i, file);
            if part.len() != 1 {
                assert(views[i] == part_groups@[i]@);
            }
            assert(part_groups@[i].files@.contains(file));
        } else {
            let i = at - other_offset;
            assert(groups@[other_offset + i]@ == sources::deduped_groups(
                other,
                other_listings,
            )[i]);
            lemma_kept_is_found(collect_files, other, other_listings, i, file);
        }
    }
}

/// Groups with the same views hold the same logs.
proof fn lemma_equal_groups_hold(
    left: Seq<CodexUsageGroup>,
    right: Seq<CodexUsageGroup>,
    file: SessionFile,
)
    requires
        sources::group_views(left) == sources::group_views(right),
        groups_hold(left, file),
    ensures
        groups_hold(right, file),
{
    let i = choose|i: int| 0 <= i < left.len() && (#[trigger] left[i]).files@.contains(file);
    assert(sources::group_views(left).len() == left.len());
    assert(sources::group_views(right).len() == right.len());
    assert(sources::group_views(left)[i] == left[i]@);
    assert(sources::group_views(right)[i] == right[i]@);
    assert(right[i].files@.contains(file));
}

/// The plans for a part of the sources and for all of them, where no log of the part is kin of one
/// of the other sources.
///
/// The sources of the part come before the others where `is_first` holds, else behind them.
proof fn lemma_part_is_planned_alike<Plan, Prefix, Collect, Planner, Lookup, Visit, Work>(
    access: CodexLogAccess<Collect, Planner, Lookup, Visit, Work>,
    kin: spec_fn(SessionFile, SessionFile) -> bool,
    part: Seq<CodexUsageSource>,
    other: Seq<CodexUsageSource>,
    is_first: bool,
    whole: Seq<CodexUsageSource>,
) where
    Collect: Fn(&String) -> Vec<SessionFile>,
    Planner: Fn(&Vec<CodexUsageGroup>, bool) -> Plan,
    Lookup: Fn(&Plan, &SessionFile) -> Prefix,
    Visit: Fn(&String, &SessionFile, Prefix) -> SessionVisit,
    Work: Fn(&String, &Vec<SessionFile>, &Plan, &Vec<Vec<usize>>) -> Vec<LoadedFile>,

    requires
        threads::lists_the_same(access.collect_files),
        plans_by_kin(access, kin),
        part.len() == 1 ==> loads::paths_name_one_log(access.collect_files, part[0]),
        whole == if is_first {
            part + other
        } else {
            other + part
        },
        if is_first {
            loads::share_no_path(access.collect_files, part, other)
        } else {
            loads::share_no_path(access.collect_files, other, part)
        },
        share_no_kin(access.collect_files, kin, part, other),
    ensures
        loads::plans_alike_for(access, part, whole),
{
    let collect_files = access.collect_files;
    assert forall|
        part_groups: Vec<CodexUsageGroup>,
        part_thread: bool,
        part_plan: Plan,
        groups: Vec<CodexUsageGroup>,
        thread: bool,
        plan: Plan,
    |
        #[trigger] access.plan_replay.ensures((&part_groups, part_thread), part_plan)
            && #[trigger] access.plan_replay.ensures((&groups, thread), plan)
            && loader::are_source_groups(collect_files, part, &part_groups)
            && loader::are_source_groups(
            collect_files,
            whole,
            &groups,
        ) implies loads::plans_agree_on_groups(
        access.replay_prefix,
        &part_plan,
        &plan,
        part_groups@,
    ) by {
        assert forall|file: SessionFile| groups_hold(part_groups@, file) implies
            #[trigger] groups_hold(groups@, file) && hold_the_same_kin(
            kin,
            part_groups@,
            groups@,
            file,
        ) by {
            lemma_part_holds_its_kin(
                collect_files,
                kin,
                part,
                &part_groups,
                other,
                is_first,
                whole,
                &groups,
                file,
            );
        }
        assert forall|i: int, j: int|
            #![trigger part_groups@[i].files@[j]]
            0 <= i < part_groups@.len() && 0 <= j
                < part_groups@[i].files@.len() implies threads::plans_agree_on(
            access.replay_prefix,
            &part_plan,
            &plan,
            &part_groups@[i].files@[j],
        ) by {
            let file = &part_groups@[i].files@[j];
            assert(part_groups@[i].files@.contains(*file));
            assert(groups_hold(part_groups@, *file));
            assert(groups_hold(groups@, *file));
            assert(hold_the_same_kin(kin, part_groups@, groups@, *file));
        }
    }
}

/// The kin of a log of a part of the sources are the same among the logs of the part and among all
/// logs.
proof fn lemma_part_holds_its_kin<Collect>(
    collect_files: Collect,
    kin: spec_fn(SessionFile, SessionFile) -> bool,
    part: Seq<CodexUsageSource>,
    part_groups: &Vec<CodexUsageGroup>,
    other: Seq<CodexUsageSource>,
    is_first: bool,
    whole: Seq<CodexUsageSource>,
    groups: &Vec<CodexUsageGroup>,
    file: SessionFile,
) where Collect: Fn(&String) -> Vec<SessionFile>
    requires
        threads::lists_the_same(collect_files),
        part.len() == 1 ==> loads::paths_name_one_log(collect_files, part[0]),
        whole == if is_first {
            part + other
        } else {
            other + part
        },
        if is_first {
            loads::share_no_path(collect_files, part, other)
        } else {
            loads::share_no_path(collect_files, other, part)
        },
        share_no_kin(collect_files, kin, part, other),
        loader::are_source_groups(collect_files, part, part_groups),
        loader::are_source_groups(collect_files, whole, groups),
        groups_hold(part_groups@, file),
    ensures
        groups_hold(groups@, file),
        hold_the_same_kin(kin, part_groups@, groups@, file),
{
    if other.len() == 0 {
        assert(whole =~= part);
        threads::lemma_source_groups_are_equal(collect_files, part, part_groups, groups);
        lemma_equal_groups_hold(part_groups@, groups@, file);
        assert forall|relative: SessionFile| kin(file, relative) implies (
        #[trigger] groups_hold(part_groups@, relative) <==> groups_hold(groups@, relative)) by {
            if groups_hold(part_groups@, relative) {
                lemma_equal_groups_hold(part_groups@, groups@, relative);
            }
            if groups_hold(groups@, relative) {
                lemma_equal_groups_hold(groups@, part_groups@, relative);
            }
        }
    } else if part.len() == 0 {
        assert(sources::group_views(part_groups@).len() == part_groups@.len());
        assert(false);
    } else {
        let listings = choose|listings: Seq<Vec<SessionFile>>|
            {
                &&& #[trigger] loader::are_listings(collect_files, whole, listings)
                &&& sources::group_views(groups@) == sources::deduped_groups(whole, listings)
            };
        let middle = if is_first {
            part.len() as int
        } else {
            other.len() as int
        };
        let start = listings.take(middle);
        let end = listings.skip(middle);
        let part_listings = if is_first {
            start
        } else {
            end
        };
        let other_listings = if is_first {
            end
        } else {
            start
        };
        let offset = if is_first {
            0
        } else {
            middle
        };
        let other_offset = if is_first {
            middle
        } else {
            0
        };
        if is_first {
            loads::lemma_groups_of_lists(collect_files, part, other, listings);
        } else {
            loads::lemma_groups_of_lists(collect_files, other, part, listings);
        }
        let views = sources::group_views(groups@);
        assert(views.len() == groups@.len());
        assert forall|i: int| 0 <= i < part.len() implies groups@[offset + i]@
            == #[trigger] sources::deduped_groups(part, part_listings)[i] by {
            assert(views[offset + i] == groups@[offset + i]@);
        }
        assert forall|i: int| 0 <= i < other.len() implies groups@[other_offset + i]@
            == #[trigger] sources::deduped_groups(other, other_listings)[i] by {
            assert(views[other_offset + i] == groups@[other_offset + i]@);
        }
        lemma_logs_of_part(
            collect_files,
            part,
            part_listings,
            part_groups,
            other,
            other_listings,
            groups,
            offset,
            other_offset,
            file,
        );
        assert forall|relative: SessionFile| kin(file, relative) implies (
        #[trigger] groups_hold(part_groups@, relative) <==> groups_hold(groups@, relative)) by {
            lemma_logs_of_part(
                collect_files,
                part,
                part_listings,
                part_groups,
                other,
                other_listings,
                groups,
                offset,
                other_offset,
                relative,
            );
            assert(is_found(collect_files, part, file));
        }
    }
}

/// Where what a plan has for a log depends only on the log's kin, and no log of one list of sources
/// is kin of one of the other, the plans for each list and for both have the same for each log.
pub proof fn law_lists_without_common_kin_are_planned_alike<
    Plan,
    Prefix,
    Collect,
    Planner,
    Lookup,
    Visit,
    Work,
>(
    access: CodexLogAccess<Collect, Planner, Lookup, Visit, Work>,
    kin: spec_fn(SessionFile, SessionFile) -> bool,
    left: Seq<CodexUsageSource>,
    right: Seq<CodexUsageSource>,
) where
    Collect: Fn(&String) -> Vec<SessionFile>,
    Planner: Fn(&Vec<CodexUsageGroup>, bool) -> Plan,
    Lookup: Fn(&Plan, &SessionFile) -> Prefix,
    Visit: Fn(&String, &SessionFile, Prefix) -> SessionVisit,
    Work: Fn(&String, &Vec<SessionFile>, &Plan, &Vec<Vec<usize>>) -> Vec<LoadedFile>,

    requires
        threads::lists_the_same(access.collect_files),
        plans_by_kin(access, kin),
        left.len() == 1 ==> loads::paths_name_one_log(access.collect_files, left[0]),
        right.len() == 1 ==> loads::paths_name_one_log(access.collect_files, right[0]),
        loads::share_no_path(access.collect_files, left, right),
        share_no_kin(access.collect_files, kin, left, right),
    ensures
        loads::plans_alike_for(access, left, left + right),
        loads::plans_alike_for(access, right, left + right),
{
    assert(share_no_kin(access.collect_files, kin, right, left)) by {
        assert forall|file: SessionFile, other: SessionFile| #[trigger]
            is_found(access.collect_files, right, file) && #[trigger] is_found(
                access.collect_files,
                left,
                other,
            ) implies !kin(file, other) && !kin(other, file) by {}
    }
    lemma_part_is_planned_alike(access, kin, left, right, true, left + right);
    lemma_part_is_planned_alike(access, kin, right, left, false, left + right);
}

/// Sources of two lists that share no path, and of which no log of one is kin of a log of the
/// other, are loaded together as they are loaded apart: the loads of the two lists, put together,
/// with the first copy of each event kept.
pub proof fn law_load_of_two_unrelated_lists<Plan, Prefix, Collect, Planner, Lookup, Visit, Work>(
    access: CodexLogAccess<Collect, Planner, Lookup, Visit, Work>,
    kin: spec_fn(SessionFile, SessionFile) -> bool,
    left: Seq<CodexUsageSource>,
    left_thread: bool,
    left_events: Seq<CodexTokenUsageEvent>,
    right: Seq<CodexUsageSource>,
    right_thread: bool,
    right_events: Seq<CodexTokenUsageEvent>,
    thread: bool,
    events: Seq<CodexTokenUsageEvent>,
) where
    Collect: Fn(&String) -> Vec<SessionFile>,
    Planner: Fn(&Vec<CodexUsageGroup>, bool) -> Plan,
    Lookup: Fn(&Plan, &SessionFile) -> Prefix,
    Visit: Fn(&String, &SessionFile, Prefix) -> SessionVisit,
    Work: Fn(&String, &Vec<SessionFile>, &Plan, &Vec<Vec<usize>>) -> Vec<LoadedFile>,

    requires
        threads::has_one_outcome(access),
        loader::workers_read_their_chunks(access),
        plans_by_kin(access, kin),
        left.len() == 1 ==> loads::paths_name_one_log(access.collect_files, left[0]),
        right.len() == 1 ==> loads::paths_name_one_log(access.collect_files, right[0]),
        loads::share_no_path(access.collect_files, left, right),
        share_no_kin(access.collect_files, kin, left, right),
        loader::is_sources_load(access, left_thread, left, left_events),
        loader::is_sources_load(access, right_thread, right, right_events),
        loader::is_sources_load(access, thread, left + right, events),
    ensures
        events == dedupe::deduped(left_events + right_events),
{
    law_lists_without_common_kin_are_planned_alike(access, kin, left, right);
    loads::law_load_of_two_lists(
        access,
        left,
        left_thread,
        left_events,
        right,
        right_thread,
        right_events,
        thread,
        events,
    );
}

/// A load of the sources of two homes, of which no log of one is kin of a log of the other, holds
/// an event with a given key if and only if the load of the sources of one of them does, and then
/// it holds one such event.
pub proof fn law_load_of_two_unrelated_homes<Plan, Prefix, Collect, Planner, Lookup, Visit, Work>(
    access: CodexLogAccess<Collect, Planner, Lookup, Visit, Work>,
    kin: spec_fn(SessionFile, SessionFile) -> bool,
    left: Seq<CodexUsageSource>,
    left_thread: bool,
    left_events: Seq<CodexTokenUsageEvent>,
    right: Seq<CodexUsageSource>,
    right_thread: bool,
    right_events: Seq<CodexTokenUsageEvent>,
    thread: bool,
    events: Seq<CodexTokenUsageEvent>,
) where
    Collect: Fn(&String) -> Vec<SessionFile>,
    Planner: Fn(&Vec<CodexUsageGroup>, bool) -> Plan,
    Lookup: Fn(&Plan, &SessionFile) -> Prefix,
    Visit: Fn(&String, &SessionFile, Prefix) -> SessionVisit,
    Work: Fn(&String, &Vec<SessionFile>, &Plan, &Vec<Vec<usize>>) -> Vec<LoadedFile>,

    requires
        threads::has_one_outcome(access),
        loader::workers_read_their_chunks(access),
        plans_by_kin(access, kin),
        left.len() == 1 ==> loads::paths_name_one_log(access.collect_files, left[0]),
        right.len() == 1 ==> loads::paths_name_one_log(access.collect_files, right[0]),
        forall|i: int, j: int|
            0 <= i < left.len() && 0 <= j < right.len() ==> (#[trigger] left[i]).home@ != (
            #[trigger] right[j]).home@,
        share_no_kin(access.collect_files, kin, left, right),
        loader::is_sources_load(access, left_thread, left, left_events),
        loader::is_sources_load(access, right_thread, right, right_events),
        loader::is_sources_load(access, thread, left + right, events),
    ensures
        forall|copy_key: key::KeyView| #[trigger]
            dedupe::has_copy(events, copy_key) <==> dedupe::has_copy(left_events, copy_key)
                || dedupe::has_copy(right_events, copy_key),
        forall|i: int, j: int|
            0 <= i < j < events.len() ==> key::key_of(#[trigger] events[i]) != key::key_of(
                #[trigger] events[j],
            ),
{
    law_lists_without_common_kin_are_planned_alike(access, kin, left, right);
    loads::law_load_of_two_homes(
        access,
        left,
        left_thread,
        left_events,
        right,
        right_thread,
        right_events,
        thread,
        events,
    );
}

} // verus!

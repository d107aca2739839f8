//! Laws of what loads hold.

use vstd::prelude::*;

use crate::dedupe;
use crate::event::CodexTokenUsageEvent;
use crate::key;
use crate::laws::events;
use crate::laws::lists;
use crate::laws::logs;
use crate::laws::threads;
use crate::loader;
use crate::loader::CodexLogAccess;
use crate::reading;
use crate::reading::{LoadedFile, SessionVisit};
use crate::sources;
use crate::sources::{CodexUsageGroup, CodexUsageSource, SessionFile};

verus! {

/// Each event that a load reads has a copy in what the load gives, and each event that it gives is
/// a copy of one that it reads: of the groups of its sources, by the plan made for them.
pub proof fn law_loads_hold_what_is_read<Plan, Prefix, Collect, Planner, Lookup, Visit, Work>(
    access: CodexLogAccess<Collect, Planner, Lookup, Visit, Work>,
    single_thread: bool,
    usage_sources: Seq<CodexUsageSource>,
    events: Seq<CodexTokenUsageEvent>,
) -> (read: (Vec<CodexUsageGroup>, Plan, Seq<Seq<CodexTokenUsageEvent>>)) where
    Collect: Fn(&String) -> Vec<SessionFile>,
    Planner: Fn(&Vec<CodexUsageGroup>, bool) -> Plan,
    Lookup: Fn(&Plan, &SessionFile) -> Prefix,
    Visit: Fn(&String, &SessionFile, Prefix) -> SessionVisit,
    Work: Fn(&String, &Vec<SessionFile>, &Plan, &Vec<Vec<usize>>) -> Vec<LoadedFile>,

    requires
        loader::is_sources_load(access, single_thread, usage_sources, events),
    ensures
        loader::are_source_groups(access.collect_files, usage_sources, &read.0),
        loader::is_load_from(
            access,
            single_thread,
            single_thread,
            &read.0,
            read.1,
            read.2,
            events,
        ),
        forall|i: int, j: int|
            #![trigger read.2[i][j]]
            0 <= i < read.2.len() && 0 <= j < read.2[i].len() ==> dedupe::has_copy(
                events,
                key::key_of(read.2[i][j]),
            ),
        forall|at: int|
            0 <= at < events.len() ==> exists|i: int, j: int|
                #![trigger read.2[i][j]]
                0 <= i < read.2.len() && 0 <= j < read.2[i].len() && key::key_of(read.2[i][j])
                    == key::key_of(#[trigger] events[at]),
{
    let groups = choose|groups: Vec<CodexUsageGroup>|
        loader::are_source_groups(access.collect_files, usage_sources, &groups)
            && #[trigger] loader::is_load_of_groups_by(
            access,
            single_thread,
            single_thread,
            &groups,
            events,
        );
    let (plan, readings) = choose|plan: Plan, readings: Seq<Seq<CodexTokenUsageEvent>>| #[trigger]
        loader::is_load_from(
            access,
            single_thread,
            single_thread,
            &groups,
            plan,
            readings,
            events,
        );
    let all = readings.flatten();
    dedupe::lemma_deduped_keys(all);
    assert forall|i: int, j: int|
        #![trigger readings[i][j]]
        0 <= i < readings.len() && 0 <= j < readings[i].len() implies dedupe::has_copy(
        events,
        key::key_of(readings[i][j]),
    ) by {
        lists::lemma_flatten_holds(readings, i, j);
        assert(dedupe::has_copy(all, key::key_of(readings[i][j])));
    }
    assert forall|at: int| 0 <= at < events.len() implies exists|i: int, j: int|
        #![trigger readings[i][j]]
        0 <= i < readings.len() && 0 <= j < readings[i].len() && key::key_of(readings[i][j])
            == key::key_of(#[trigger] events[at]) by {
        let wanted = key::key_of(events[at]);
        assert(dedupe::has_copy(events, wanted));
        assert(dedupe::has_copy(all, wanted));
        let k = choose|k: int| 0 <= k < all.len() && key::key_of(#[trigger] all[k]) == wanted;
        let (i, j) = lists::lemma_flatten_origin(readings, k);
        assert(readings[i][j] == all[k]);
    }
    (groups, plan, readings)
}

/// No two events that a load gives are copies of one another.
pub proof fn law_loads_hold_no_copies<Plan, Prefix, Collect, Planner, Lookup, Visit, Work>(
    access: CodexLogAccess<Collect, Planner, Lookup, Visit, Work>,
    single_thread: bool,
    usage_sources: Seq<CodexUsageSource>,
    events: Seq<CodexTokenUsageEvent>,
    left: int,
    right: int,
) where
    Collect: Fn(&String) -> Vec<SessionFile>,
    Planner: Fn(&Vec<CodexUsageGroup>, bool) -> Plan,
    Lookup: Fn(&Plan, &SessionFile) -> Prefix,
    Visit: Fn(&String, &SessionFile, Prefix) -> SessionVisit,
    Work: Fn(&String, &Vec<SessionFile>, &Plan, &Vec<Vec<usize>>) -> Vec<LoadedFile>,

    requires
        loader::is_sources_load(access, single_thread, usage_sources, events),
        0 <= left < right < events.len(),
    ensures
        key::key_of(events[left]) != key::key_of(events[right]),
{
    let read = law_loads_hold_what_is_read(access, single_thread, usage_sources, events);
    dedupe::lemma_deduped_keys(read.2.flatten());
}

/// Whether, under the directory of a source, a relative path names one log: where it is listed
/// twice, the same log is listed.
pub open spec fn paths_name_one_log<Collect>(
    collect_files: Collect,
    source: CodexUsageSource,
) -> bool where Collect: Fn(&String) -> Vec<SessionFile> {
    forall|listing: Vec<SessionFile>, i: int, j: int|
        #![trigger collect_files.ensures((&source.dir,), listing), listing@[i], listing@[j]]
        collect_files.ensures((&source.dir,), listing) && 0 <= i < j < listing@.len()
            && listing@[i].relative_path@ == listing@[j].relative_path@ ==> listing@[i]
            == listing@[j]
}

/// Whether no source of the one list and source of the other have their home and the relative path
/// of a log in common.
pub open spec fn share_no_path<Collect>(
    collect_files: Collect,
    left: Seq<CodexUsageSource>,
    right: Seq<CodexUsageSource>,
) -> bool where Collect: Fn(&String) -> Vec<SessionFile> {
    forall|
        i: int,
        left_listing: Vec<SessionFile>,
        left_file: int,
        j: int,
        right_listing: Vec<SessionFile>,
        right_file: int,
    |
        #![trigger
            collect_files.ensures((&left[i].dir,), left_listing),
            left_listing@[left_file],
            collect_files.ensures((&right[j].dir,), right_listing),
            right_listing@[right_file],
        ]
        0 <= i < left.len() && 0 <= j < right.len() && collect_files.ensures(
            (&left[i].dir,),
            left_listing,
        ) && collect_files.ensures((&right[j].dir,), right_listing) && 0 <= left_file
            < left_listing@.len() && 0 <= right_file < right_listing@.len() && left[i].home@
            == right[j].home@ ==> left_listing@[left_file].relative_path@
            != right_listing@[right_file].relative_path@
}

/// Whether the plan that is made for the groups of `part` and the one that is made for the groups
/// of `whole` have the same for each log of the groups of `part`.
pub open spec fn plans_alike_for<Plan, Prefix, Collect, Planner, Lookup, Visit, Work>(
    access: CodexLogAccess<Collect, Planner, Lookup, Visit, Work>,
    part: Seq<CodexUsageSource>,
    whole: Seq<CodexUsageSource>,
) -> bool where
    Collect: Fn(&String) -> Vec<SessionFile>,
    Planner: Fn(&Vec<CodexUsageGroup>, bool) -> Plan,
    Lookup: Fn(&Plan, &SessionFile) -> Prefix,
    Visit: Fn(&String, &SessionFile, Prefix) -> SessionVisit,
    Work: Fn(&String, &Vec<SessionFile>, &Plan, &Vec<Vec<usize>>) -> Vec<LoadedFile>,
 {
    forall|
        part_groups: Vec<CodexUsageGroup>,
        part_thread: bool,
        part_plan: Plan,
        whole_groups: Vec<CodexUsageGroup>,
        whole_thread: bool,
        whole_plan: Plan,
    |
        #[trigger] access.plan_replay.ensures((&part_groups, part_thread), part_plan)
            && #[trigger] access.plan_replay.ensures((&whole_groups, whole_thread), whole_plan)
            && loader::are_source_groups(access.collect_files, part, &part_groups)
            && loader::are_source_groups(access.collect_files, whole, &whole_groups)
            ==> plans_agree_on_groups(
            access.replay_prefix,
            &part_plan,
            &whole_plan,
            part_groups@,
        )
}

/// Whether two plans have the same for each log of some groups.
pub open spec fn plans_agree_on_groups<Plan, Prefix, Lookup>(
    replay_prefix: Lookup,
    left_plan: &Plan,
    right_plan: &Plan,
    groups: Seq<CodexUsageGroup>,
) -> bool where Lookup: Fn(&Plan, &SessionFile) -> Prefix {
    forall|i: int, j: int|
        #![trigger groups[i].files@[j]]
        0 <= i < groups.len() && 0 <= j < groups[i].files@.len() ==> threads::plans_agree_on(
            replay_prefix,
            left_plan,
            right_plan,
            &groups[i].files@[j],
        )
}

/// What is read of the sources of two lists together is what is read of each list, where they share
/// no path.
pub proof fn lemma_groups_of_lists<Collect>(
    collect_files: Collect,
    left: Seq<CodexUsageSource>,
    right: Seq<CodexUsageSource>,
    listings: Seq<Vec<SessionFile>>,
) where Collect: Fn(&String) -> Vec<SessionFile>
    requires
        share_no_path(collect_files, left, right),
        loader::are_listings(collect_files, left + right, listings),
    ensures
        loader::are_listings(collect_files, left, listings.take(left.len() as int)),
        loader::are_listings(collect_files, right, listings.skip(left.len() as int)),
        sources::deduped_groups(left + right, listings) == sources::deduped_groups(
            left,
            listings.take(left.len() as int),
        ) + sources::deduped_groups(right, listings.skip(left.len() as int)),
{
    let whole = left + right;
    let left_listings = listings.take(left.len() as int);
    let right_listings = listings.skip(left.len() as int);
    assert forall|i: int| 0 <= i < left_listings.len() implies collect_files.ensures(
        (&left[i].dir,),
        #[trigger] left_listings[i],
    ) by {
        assert(whole[i] == left[i]);
        assert(collect_files.ensures((&whole[i].dir,), listings[i]));
    }
    assert forall|i: int| 0 <= i < right_listings.len() implies collect_files.ensures(
        (&right[i].dir,),
        #[trigger] right_listings[i],
    ) by {
        let at = left.len() + i;
        assert(whole[at] == right[i]);
        assert(collect_files.ensures((&whole[at].dir,), listings[at]));
    }
    assert forall|i: int, f: int, j: int, g: int|
        #![trigger left_listings[i]@[f], right_listings[j]@[g]]
        0 <= i < left.len() && 0 <= j < right.len() && 0 <= f < left_listings[i]@.len() && 0 <= g
            < right_listings[j]@.len() && left[i].home@ == right[j].home@ implies left_listings[i]@[
    f].relative_path@ != right_listings[j]@[g].relative_path@ by {
        assert(collect_files.ensures((&left[i].dir,), left_listings[i]));
        assert(collect_files.ensures((&right[j].dir,), right_listings[j]));
    }
    logs::law_lists_without_a_common_path_are_read_apart(
        left,
        left_listings,
        right,
        right_listings,
    );
    assert(listings =~= left_listings + right_listings);
}

/// What is kept of a part of a listing is the start of what is kept of all of it.
proof fn lemma_kept_is_start(
    usage_sources: Seq<CodexUsageSource>,
    listings: Seq<Vec<SessionFile>>,
    source: int,
    count: int,
    total: int,
)
    requires
        0 <= count <= total,
    ensures
        sources::kept_files(usage_sources, listings, source, count).is_prefix_of(
            sources::kept_files(usage_sources, listings, source, total),
        ),
    decreases total,
{
    if count < total {
        lemma_kept_is_start(usage_sources, listings, source, count, total - 1);
    }
}

/// Readings of a single source, of every log that it lists and of each log once, hold the same
/// events.
proof fn lemma_logs_listed_twice(
    usage_sources: Seq<CodexUsageSource>,
    listings: Seq<Vec<SessionFile>>,
    count: int,
    readings: Seq<Seq<CodexTokenUsageEvent>>,
    kept_readings: Seq<Seq<CodexTokenUsageEvent>>,
)
    requires
        usage_sources.len() == 1,
        listings.len() == 1,
        0 <= count <= listings[0]@.len(),
        readings.len() == listings[0]@.len(),
        kept_readings.len() == sources::kept_files(
            usage_sources,
            listings,
            0,
            listings[0]@.len() as int,
        ).len(),
        forall|i: int, j: int|
            0 <= i < j < listings[0]@.len() && (#[trigger] listings[0]@[i]).relative_path@ == (
            #[trigger] listings[0]@[j]).relative_path@ ==> readings[i] == readings[j],
        forall|i: int, k: int|
            0 <= i < readings.len() && 0 <= k < kept_readings.len() && listings[0]@[i]
                == sources::kept_files(
                usage_sources,
                listings,
                0,
                listings[0]@.len() as int,
            )[k] ==> #[trigger] readings[i] == #[trigger] kept_readings[k],
    ensures
        dedupe::deduped(readings.take(count).flatten()) == dedupe::deduped(
            kept_readings.take(
                sources::kept_files(usage_sources, listings, 0, count).len() as int,
            ).flatten(),
        ),
    decreases count,
{
    let total = listings[0]@.len() as int;
    let kept = sources::kept_files(usage_sources, listings, 0, count);
    let all_kept = sources::kept_files(usage_sources, listings, 0, total);
    if count == 0 {
        assert(readings.take(count) =~= kept_readings.take(kept.len() as int));
    } else {
        let at = count - 1;
        let kept_before = sources::kept_files(usage_sources, listings, 0, at);
        lemma_logs_listed_twice(usage_sources, listings, at, readings, kept_readings);
        lemma_kept_is_start(usage_sources, listings, 0, count, total);
        lemma_kept_is_start(usage_sources, listings, 0, at, total);
        let file = listings[0]@[at];
        let before = readings.take(at).flatten();
        let kept_events = kept_readings.take(kept_before.len() as int).flatten();
        assert(readings.take(count) =~= readings.take(at).push(readings[at]));
        readings.take(at).lemma_flatten_push(readings[at]);
        let home = usage_sources[0].home@;
        if sources::is_listed(usage_sources, listings, 0, at, home, file.relative_path@) {
            let (source, earlier) = choose|source: int, earlier: int|
                #![trigger listings[source]@[earlier]]
                0 <= source <= 0 && 0 <= earlier < (if source < 0 {
                    listings[source]@.len() as int
                } else {
                    at
                }) && usage_sources[source].home@ == home
                    && listings[source]@[earlier].relative_path@ == file.relative_path@;
            assert(listings[0]@[earlier].relative_path@ == listings[0]@[at].relative_path@);
            assert(readings[earlier] == readings[at]);
            assert forall|k: int| 0 <= k < readings[at].len() implies before.contains(
                #[trigger] readings[at][k],
            ) by {
                assert(readings.take(at)[earlier] == readings[earlier]);
                lists::lemma_flatten_holds(readings.take(at), earlier, k);
            }
            events::law_repeated_events_change_nothing(before, readings[at]);
        } else {
            let next = kept_before.len() as int;
            assert(kept == kept_before.push(file));
            assert(all_kept[next] == kept[next]);
            assert(readings[at] == kept_readings[next]);
            assert(kept_readings.take(next + 1) =~= kept_readings.take(next).push(
                kept_readings[next],
            ));
            kept_readings.take(next).lemma_flatten_push(kept_readings[next]);
            events::law_dedupe_can_be_resumed(before, readings[at]);
            events::law_dedupe_can_be_resumed(kept_events, readings[at]);
        }
    }
}

/// A reading of every log that a single source lists, and one of each of its logs once.
proof fn lemma_single_source_read_once<Plan, Prefix, Lookup, Visit>(
    replay_prefix: Lookup,
    visit_file: Visit,
    usage_sources: Seq<CodexUsageSource>,
    listings: Seq<Vec<SessionFile>>,
    group: &CodexUsageGroup,
    plan: &Plan,
    events: Seq<CodexTokenUsageEvent>,
    kept_group: &CodexUsageGroup,
    kept_plan: &Plan,
    kept_events: Seq<CodexTokenUsageEvent>,
) where
    Lookup: Fn(&Plan, &SessionFile) -> Prefix,
    Visit: Fn(&String, &SessionFile, Prefix) -> SessionVisit,

    requires
        usage_sources.len() == 1,
        listings.len() == 1,
        forall|i: int, j: int|
            0 <= i < j < listings[0]@.len() && (#[trigger] listings[0]@[i]).relative_path@ == (
            #[trigger] listings[0]@[j]).relative_path@ ==> listings[0]@[i] == listings[0]@[j],
        group.files@ == listings[0]@,
        group.dir@ == kept_group.dir@,
        kept_group.files@ == sources::kept_files(
            usage_sources,
            listings,
            0,
            listings[0]@.len() as int,
        ),
        threads::visits_the_same(visit_file),
        forall|file: &SessionFile| #[trigger]
            threads::plans_agree_on(replay_prefix, plan, plan, file),
        forall|i: int|
            0 <= i < group.files@.len() ==> threads::plans_agree_on(
                replay_prefix,
                plan,
                kept_plan,
                &#[trigger] group.files@[i],
            ),
        reading::is_in_order_reading(
            replay_prefix,
            visit_file,
            &group.dir,
            &group.files,
            plan,
            events,
        ),
        reading::is_in_order_reading(
            replay_prefix,
            visit_file,
            &kept_group.dir,
            &kept_group.files,
            kept_plan,
            kept_events,
        ),
    ensures
        dedupe::deduped(events) == dedupe::deduped(kept_events),
{
    let readings = choose|readings: Seq<Seq<CodexTokenUsageEvent>>|
        {
            &&& readings.len() == group.files@.len()
            &&& forall|i: int|
                0 <= i < readings.len() ==> reading::is_file_reading(
                    replay_prefix,
                    visit_file,
                    &group.dir,
                    &group.files@[i],
                    plan,
                    #[trigger] readings[i],
                )
            &&& #[trigger] readings.flatten() == events
        };
    let kept_readings = choose|readings: Seq<Seq<CodexTokenUsageEvent>>|
        {
            &&& readings.len() == kept_group.files@.len()
            &&& forall|i: int|
                0 <= i < readings.len() ==> reading::is_file_reading(
                    replay_prefix,
                    visit_file,
                    &kept_group.dir,
                    &kept_group.files@[i],
                    kept_plan,
                    #[trigger] readings[i],
                )
            &&& #[trigger] readings.flatten() == kept_events
        };
    let files = listings[0]@;
    assert forall|i: int, j: int|
        0 <= i < j < files.len() && (#[trigger] files[i]).relative_path@ == (
        #[trigger] files[j]).relative_path@ implies readings[i] == readings[j] by {
        assert(files[i] == files[j]);
        let file = &files[i];
        assert(threads::plans_agree_on(replay_prefix, plan, plan, file));
        assert(reading::is_file_reading(
            replay_prefix,
            visit_file,
            &group.dir,
            file,
            plan,
            readings[i],
        ));
        assert(reading::is_file_reading(
            replay_prefix,
            visit_file,
            &group.dir,
            file,
            plan,
            readings[j],
        ));
        threads::lemma_file_readings_agree(
            replay_prefix,
            visit_file,
            file,
            &group.dir,
            plan,
            readings[i],
            &group.dir,
            plan,
            readings[j],
        );
    }
    assert forall|i: int, k: int|
        0 <= i < readings.len() && 0 <= k < kept_readings.len() && files[i]
            == kept_group.files@[k] implies #[trigger] readings[i]
        == #[trigger] kept_readings[k] by {
        let file = &group.files@[i];
        assert(threads::plans_agree_on(replay_prefix, plan, kept_plan, file));
        assert(reading::is_file_reading(
            replay_prefix,
            visit_file,
            &kept_group.dir,
            file,
            kept_plan,
            kept_readings[k],
        ));
        threads::lemma_file_readings_agree(
            replay_prefix,
            visit_file,
            file,
            &group.dir,
            plan,
            readings[i],
            &kept_group.dir,
            kept_plan,
            kept_readings[k],
        );
    }
    lemma_logs_listed_twice(
        usage_sources,
        listings,
        files.len() as int,
        readings,
        kept_readings,
    );
    assert(readings.take(files.len() as int) =~= readings);
    assert(kept_readings.take(kept_group.files@.len() as int) =~= kept_readings);
}

/// The load of a part of the sources, by what a load of all of them reads of the part.
///
/// `groups`, `plan` and `readings` are of the load of all sources; those of the part start at
/// `offset`.
proof fn lemma_part_of_load<Plan, Prefix, Collect, Planner, Lookup, Visit, Work>(
    access: CodexLogAccess<Collect, Planner, Lookup, Visit, Work>,
    part: Seq<CodexUsageSource>,
    part_listings: Seq<Vec<SessionFile>>,
    part_thread: bool,
    part_events: Seq<CodexTokenUsageEvent>,
    whole: Seq<CodexUsageSource>,
    groups: &Vec<CodexUsageGroup>,
    thread: bool,
    plan: Plan,
    readings: Seq<Seq<CodexTokenUsageEvent>>,
    offset: int,
) where
    Collect: Fn(&String) -> Vec<SessionFile>,
    Planner: Fn(&Vec<CodexUsageGroup>, bool) -> Plan,
    Lookup: Fn(&Plan, &SessionFile) -> Prefix,
    Visit: Fn(&String, &SessionFile, Prefix) -> SessionVisit,
    Work: Fn(&String, &Vec<SessionFile>, &Plan, &Vec<Vec<usize>>) -> Vec<LoadedFile>,

    requires
        threads::has_one_outcome(access),
        loader::workers_read_their_chunks(access),
        part.len() == 1 ==> paths_name_one_log(access.collect_files, part[0]),
        plans_alike_for(access, part, whole),
        loader::is_sources_load(access, part_thread, part, part_events),
        loader::are_listings(access.collect_files, part, part_listings),
        loader::are_source_groups(access.collect_files, whole, groups),
        access.plan_replay.ensures((groups, thread), plan),
        readings.len() == groups@.len(),
        forall|i: int|
            0 <= i < readings.len() ==> loader::is_group_reading(
                access,
                true,
                &groups@[i],
                &plan,
                #[trigger] readings[i],
            ),
        0 <= offset,
        offset + part.len() <= groups@.len(),
        forall|i: int|
            0 <= i < part.len() ==> groups@[offset + i]@ == #[trigger] sources::deduped_groups(
                part,
                part_listings,
            )[i],
    ensures
        part_events == dedupe::deduped(readings.subrange(offset, offset + part.len()).flatten()),
{
    let (part_groups, part_plan, part_readings) = threads::lemma_load_in_order(
        access,
        part_thread,
        part,
        part_events,
    );
    let reread = readings.subrange(offset, offset + part.len());
    let part_views = sources::group_views(part_groups@);
    assert(part_views.len() == part_groups@.len());
    assert(plans_agree_on_groups(access.replay_prefix, &part_plan, &plan, part_groups@));
    if part.len() == 1 {
        let dir = &part[0].dir;
        let files = choose|files: Vec<SessionFile>|
            {
                &&& #[trigger] access.collect_files.ensures((dir,), files)
                &&& part_views == seq![sources::GroupView { dir: dir@, files: files@ }]
            };
        assert(part_views[0] == part_groups@[0]@);
        assert(access.collect_files.ensures((dir,), part_listings[0]));
        assert(groups@[offset + 0]@ == sources::deduped_groups(part, part_listings)[0]);
        assert(loader::is_group_reading(
            access,
            true,
            &groups@[offset],
            &plan,
            readings[offset],
        ));
        assert(loader::is_group_reading(
            access,
            true,
            &part_groups@[0],
            &part_plan,
            part_readings[0],
        ));
        lemma_single_source_read_once(
            access.replay_prefix,
            access.visit_file,
            part,
            part_listings,
            &part_groups@[0],
            &part_plan,
            part_readings[0],
            &groups@[offset],
            &plan,
            readings[offset],
        );
        part_readings.lemma_flatten_one_element();
        reread.lemma_flatten_one_element();
    } else {
        let listings = choose|listings: Seq<Vec<SessionFile>>|
            {
                &&& #[trigger] loader::are_listings(access.collect_files, part, listings)
                &&& part_views == sources::deduped_groups(part, listings)
            };
        threads::lemma_listings_are_equal(access.collect_files, part, listings, part_listings);
        threads::lemma_groups_of_equal_listings(part, listings, part_listings);
        assert forall|i: int| 0 <= i < part_readings.len() implies #[trigger] part_readings[i]
            == reread[i] by {
            let at = offset + i;
            assert(part_views[i] == part_groups@[i]@);
            assert(groups@[at]@ == sources::deduped_groups(part, part_listings)[i]);
            assert(loader::is_group_reading(access, true, &groups@[at], &plan, readings[at]));
            threads::lemma_in_order_readings_agree(
                access.replay_prefix,
                access.visit_file,
                &part_groups@[i],
                &part_plan,
                part_readings[i],
                &groups@[at],
                &plan,
                readings[at],
            );
        }
        assert(part_readings =~= reread);
    }
}

/// A load of no sources gives nothing.
proof fn lemma_load_of_no_sources<Plan, Prefix, Collect, Planner, Lookup, Visit, Work>(
    access: CodexLogAccess<Collect, Planner, Lookup, Visit, Work>,
    single_thread: bool,
    events: Seq<CodexTokenUsageEvent>,
) where
    Collect: Fn(&String) -> Vec<SessionFile>,
    Planner: Fn(&Vec<CodexUsageGroup>, bool) -> Plan,
    Lookup: Fn(&Plan, &SessionFile) -> Prefix,
    Visit: Fn(&String, &SessionFile, Prefix) -> SessionVisit,
    Work: Fn(&String, &Vec<SessionFile>, &Plan, &Vec<Vec<usize>>) -> Vec<LoadedFile>,

    requires
        loader::workers_read_their_chunks(access),
        loader::is_sources_load(
            access,
            single_thread,
            Seq::<CodexUsageSource>::empty(),
            events,
        ),
    ensures
        events == Seq::<CodexTokenUsageEvent>::empty(),
{
    let (groups, plan, readings) = threads::lemma_load_in_order(
        access,
        single_thread,
        Seq::<CodexUsageSource>::empty(),
        events,
    );
    assert(sources::group_views(groups@).len() == groups@.len());
    assert(readings =~= Seq::empty());
    assert(readings.flatten() =~= Seq::<CodexTokenUsageEvent>::empty());
    dedupe::lemma_first_positions(readings.flatten());
}

/// Sources of two lists that share no path are loaded together as they are loaded apart, where the
/// plans have the same for each log: the loads of the two lists, put together, with the first copy
/// of each event kept.
pub proof fn law_load_of_two_lists<Plan, Prefix, Collect, Planner, Lookup, Visit, Work>(
    access: CodexLogAccess<Collect, Planner, Lookup, Visit, Work>,
    left: Seq<CodexUsageSource>,
    left_thread: bool,
    left_events: Seq<CodexTokenUsageEvent>,
    right: Seq<CodexUsageSource>,
    right_thread: bool,
    right_events: Seq<CodexTokenUsageEvent>,
    thread: bool,
    events: Seq<CodexTokenUsageEvent>,
) where
    Collect: Fn(&String) -> Vec<SessionFile>,
    Planner: Fn(&Vec<CodexUsageGroup>, bool) -> Plan,
    Lookup: Fn(&Plan, &SessionFile) -> Prefix,
    Visit: Fn(&String, &SessionFile, Prefix) -> SessionVisit,
    Work: Fn(&String, &Vec<SessionFile>, &Plan, &Vec<Vec<usize>>) -> Vec<LoadedFile>,

    requires
        threads::has_one_outcome(access),
        loader::workers_read_their_chunks(access),
        left.len() == 1 ==> paths_name_one_log(access.collect_files, left[0]),
        right.len() == 1 ==> paths_name_one_log(access.collect_files, right[0]),
        share_no_path(access.collect_files, left, right),
        plans_alike_for(access, left, left + right),
        plans_alike_for(access, right, left + right),
        loader::is_sources_load(access, left_thread, left, left_events),
        loader::is_sources_load(access, right_thread, right, right_events),
        loader::is_sources_load(access, thread, left + right, events),
    ensures
        events == dedupe::deduped(left_events + right_events),
{
    let whole = left + right;
    let (groups, plan, readings) = threads::lemma_load_in_order(access, thread, whole, events);
    events::law_dedupe_is_idempotent(readings.flatten());
    if left.len() == 0 {
        assert(left =~= Seq::empty());
        assert(whole =~= right);
        lemma_load_of_no_sources(access, left_thread, left_events);
        threads::law_sources_loads_are_equal(
            access,
            right,
            thread,
            events,
            right_thread,
            right_events,
        );
        assert(left_events + right_events =~= right_events);
    } else if right.len() == 0 {
        assert(right =~= Seq::empty());
        assert(whole =~= left);
        lemma_load_of_no_sources(access, right_thread, right_events);
        threads::law_sources_loads_are_equal(
            access,
            left,
            thread,
            events,
            left_thread,
            left_events,
        );
        assert(left_events + right_events =~= left_events);
    } else {
        let listings = choose|listings: Seq<Vec<SessionFile>>|
            {
                &&& #[trigger] loader::are_listings(access.collect_files, whole, listings)
                &&& sources::group_views(groups@) == sources::deduped_groups(whole, listings)
            };
        let middle = left.len() as int;
        let left_listings = listings.take(middle);
        let right_listings = listings.skip(middle);
        lemma_groups_of_lists(access.collect_files, left, right, listings);
        let views = sources::group_views(groups@);
        assert(views.len() == groups@.len());
        assert forall|i: int| 0 <= i < left.len() implies groups@[0 + i]@
            == #[trigger] sources::deduped_groups(left, left_listings)[i] by {
            assert(views[i] == groups@[i]@);
        }
        assert forall|i: int| 0 <= i < right.len() implies groups@[middle + i]@
            == #[trigger] sources::deduped_groups(right, right_listings)[i] by {
            assert(views[middle + i] == groups@[middle + i]@);
        }
        lemma_part_of_load(
            access,
            left,
            left_listings,
            left_thread,
            left_events,
            whole,
            &groups,
            thread,
            plan,
            readings,
            0,
        );
        lemma_part_of_load(
            access,
            right,
            right_listings,
            right_thread,
            right_events,
            whole,
            &groups,
            thread,
            plan,
            readings,
            middle,
        );
        let left_readings = readings.subrange(0, middle);
        let right_readings = readings.subrange(middle, middle + right.len());
        assert(readings =~= left_readings + right_readings);
        vstd::seq_lib::lemma_flatten_concat(left_readings, right_readings);
        events::law_dedupe_can_be_resumed(left_readings.flatten(), right_readings.flatten());
        events::law_dedupe_can_be_prepared(left_events, right_readings.flatten());
    }
}

/// A load of the sources of two homes holds an event with a given key if and only if the load of
/// the sources of one of them does, and then it holds one such event, where the plans have the same
/// for each log.
pub proof fn law_load_of_two_homes<Plan, Prefix, Collect, Planner, Lookup, Visit, Work>(
    access: CodexLogAccess<Collect, Planner, Lookup, Visit, Work>,
    left: Seq<CodexUsageSource>,
    left_thread: bool,
    left_events: Seq<CodexTokenUsageEvent>,
    right: Seq<CodexUsageSource>,
    right_thread: bool,
    right_events: Seq<CodexTokenUsageEvent>,
    thread: bool,
    events: Seq<CodexTokenUsageEvent>,
) where
    Collect: Fn(&String) -> Vec<SessionFile>,
    Planner: Fn(&Vec<CodexUsageGroup>, bool) -> Plan,
    Lookup: Fn(&Plan, &SessionFile) -> Prefix,
    Visit: Fn(&String, &SessionFile, Prefix) -> SessionVisit,
    Work: Fn(&String, &Vec<SessionFile>, &Plan, &Vec<Vec<usize>>) -> Vec<LoadedFile>,

    requires
        threads::has_one_outcome(access),
        loader::workers_read_their_chunks(access),
        left.len() == 1 ==> paths_name_one_log(access.collect_files, left[0]),
        right.len() == 1 ==> paths_name_one_log(access.collect_files, right[0]),
        forall|i: int, j: int|
            0 <= i < left.len() && 0 <= j < right.len() ==> (#[trigger] left[i]).home@ != (
            #[trigger] right[j]).home@,
        plans_alike_for(access, left, left + right),
        plans_alike_for(access, right, left + right),
        loader::is_sources_load(access, left_thread, left, left_events),
        loader::is_sources_load(access, right_thread, right, right_events),
        loader::is_sources_load(access, thread, left + right, events),
    ensures
        forall|copy_key: key::KeyView| #[trigger]
            dedupe::has_copy(events, copy_key) <==> dedupe::has_copy(left_events, copy_key)
                || dedupe::has_copy(right_events, copy_key),
        forall|i: int, j: int|
            0 <= i < j < events.len() ==> key::key_of(#[trigger] events[i]) != key::key_of(
                #[trigger] events[j],
            ),
{
    law_load_of_two_lists(
        access,
        left,
        left_thread,
        left_events,
        right,
        right_thread,
        right_events,
        thread,
        events,
    );
    let both = left_events + right_events;
    dedupe::lemma_deduped_keys(both);
    assert forall|copy_key: key::KeyView| #[trigger]
        dedupe::has_copy(events, copy_key) <==> dedupe::has_copy(left_events, copy_key)
            || dedupe::has_copy(right_events, copy_key) by {
        assert(dedupe::has_copy(events, copy_key) == dedupe::has_copy(both, copy_key));
        if dedupe::has_copy(both, copy_key) {
            let k = choose|k: int|
                0 <= k < both.len() && key::key_of(#[trigger] both[k]) == copy_key;
            if k < left_events.len() {
                assert(key::key_of(left_events[k]) == copy_key);
            } else {
                assert(key::key_of(right_events[k - left_events.len()]) == copy_key);
            }
        }
        if dedupe::has_copy(left_events, copy_key) {
            let k = choose|k: int|
                0 <= k < left_events.len() && key::key_of(#[trigger] left_events[k]) == copy_key;
            assert(both[k] == left_events[k]);
        }
        if dedupe::has_copy(right_events, copy_key) {
            let k = choose|k: int|
                0 <= k < right_events.len() && key::key_of(#[trigger] right_events[k]) == copy_key;
            assert(both[left_events.len() + k] == right_events[k]);
        }
    }
}

} // verus!

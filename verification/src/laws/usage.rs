//! Laws of counting usage once, stated over the fields of events.

use vstd::prelude::*;

use crate::dedupe;
use crate::event::CodexTokenUsageEvent;
use crate::key;
use crate::laws::lists;
use crate::laws::loads;
use crate::loader;
use crate::loader::CodexLogAccess;
use crate::reading::{LoadedFile, SessionVisit};
use crate::sources::{CodexUsageGroup, CodexUsageSource, SessionFile};
use crate::tier;
use crate::tier::CodexServiceTier;

verus! {

/// Two events have one key if and only if they are of the same time and the same model, or both of
/// no known model, and of the same five token counts. Nothing else of an event matters: neither
/// its session nor its tier nor where its model is known from.
pub proof fn law_equal_usage_has_one_key(left: CodexTokenUsageEvent, right: CodexTokenUsageEvent)
    ensures
        key::key_of(left) == key::key_of(right) <==> {
            &&& left.timestamp@ == right.timestamp@
            &&& left.model is Some <==> right.model is Some
            &&& left.model is Some ==> left.model->Some_0@ == right.model->Some_0@
            &&& left.input_tokens == right.input_tokens
            &&& left.cached_input_tokens == right.cached_input_tokens
            &&& left.output_tokens == right.output_tokens
            &&& left.reasoning_output_tokens == right.reasoning_output_tokens
            &&& left.total_tokens == right.total_tokens
        },
{
}

/// Two copies of an event carry together the tier that only one of them carries, the tier that
/// both carry, `Standard` where each carries another, and none where neither carries one.
pub proof fn law_merged_tiers(
    left: Option<CodexServiceTier>,
    right: Option<CodexServiceTier>,
)
    ensures
        left is None ==> tier::merged_tier(left, right) == right,
        right is None ==> tier::merged_tier(left, right) == left,
        left == right ==> tier::merged_tier(left, right) == left,
        left is Some && right is Some && left != right ==> tier::merged_tier(left, right) == Some(
            CodexServiceTier::Standard,
        ),
{
    match left {
        Some(CodexServiceTier::Standard) => {},
        Some(CodexServiceTier::Fast) => {},
        None => {},
    }
    match right {
        Some(CodexServiceTier::Standard) => {},
        Some(CodexServiceTier::Fast) => {},
        None => {},
    }
}

/// Of the events with equal time, model and token counts the first is kept, and so is every event
/// that differs from each one before it in one of these. The kept events stand in the order in
/// which they came in, and only their tiers may have changed.
///
/// The law hands back where the kept events came from.
pub proof fn law_first_of_equal_usage_is_kept(events: Seq<CodexTokenUsageEvent>) -> (positions: Seq<
    int,
>)
    ensures
        positions.len() == dedupe::deduped(events).len(),
        forall|j: int| 0 <= j < positions.len() ==> 0 <= #[trigger] positions[j] < events.len(),
        forall|j: int, k: int|
            0 <= j < k < positions.len() ==> #[trigger] positions[j] < #[trigger] positions[k],
        forall|j: int|
            0 <= j < positions.len() ==> (#[trigger] dedupe::deduped(events)[j]) == (
            CodexTokenUsageEvent {
                service_tier: dedupe::deduped(events)[j].service_tier,
                ..events[positions[j]]
            }),
        forall|i: int|
            0 <= i < events.len() ==> (#[trigger] positions.contains(i) <==> forall|before: int|
                0 <= before < i ==> !({
                    &&& (#[trigger] events[before]).timestamp@ == events[i].timestamp@
                    &&& events[before].model is Some <==> events[i].model is Some
                    &&& events[before].model is Some ==> events[before].model->Some_0@
                        == events[i].model->Some_0@
                    &&& events[before].input_tokens == events[i].input_tokens
                    &&& events[before].cached_input_tokens == events[i].cached_input_tokens
                    &&& events[before].output_tokens == events[i].output_tokens
                    &&& events[before].reasoning_output_tokens == events[i].reasoning_output_tokens
                    &&& events[before].total_tokens == events[i].total_tokens
                })),
{
    let positions = dedupe::first_positions(events);
    dedupe::lemma_first_positions(events);
    assert forall|i: int| 0 <= i < events.len() implies (#[trigger] positions.contains(i)
        <==> forall|before: int|
        0 <= before < i ==> !({
            &&& (#[trigger] events[before]).timestamp@ == events[i].timestamp@
            &&& events[before].model is Some <==> events[i].model is Some
            &&& events[before].model is Some ==> events[before].model->Some_0@
                == events[i].model->Some_0@
            &&& events[before].input_tokens == events[i].input_tokens
            &&& events[before].cached_input_tokens == events[i].cached_input_tokens
            &&& events[before].output_tokens == events[i].output_tokens
            &&& events[before].reasoning_output_tokens == events[i].reasoning_output_tokens
            &&& events[before].total_tokens == events[i].total_tokens
        })) by {
        let earlier = events.take(i);
        let wanted = key::key_of(events[i]);
        if positions.contains(i) {
            let j = choose|j: int| 0 <= j < positions.len() && positions[j] == i;
            assert(!dedupe::has_copy(events.take(positions[j]), key::key_of(events[positions[j]])));
            assert forall|before: int| 0 <= before < i implies key::key_of(
                #[trigger] events[before],
            ) != wanted by {
                assert(earlier[before] == events[before]);
            }
        } else {
            assert(dedupe::has_copy(earlier, wanted));
            let before = choose|k: int|
                0 <= k < earlier.len() && key::key_of(#[trigger] earlier[k]) == wanted;
            assert(events[before] == earlier[before]);
            law_equal_usage_has_one_key(events[before], events[i]);
        }
        assert forall|before: int| 0 <= before < i && key::key_of(#[trigger] events[before])
            != wanted implies !({
            &&& events[before].timestamp@ == events[i].timestamp@
            &&& events[before].model is Some <==> events[i].model is Some
            &&& events[before].model is Some ==> events[before].model->Some_0@
                == events[i].model->Some_0@
            &&& events[before].input_tokens == events[i].input_tokens
            &&& events[before].cached_input_tokens == events[i].cached_input_tokens
            &&& events[before].output_tokens == events[i].output_tokens
            &&& events[before].reasoning_output_tokens == events[i].reasoning_output_tokens
            &&& events[before].total_tokens == events[i].total_tokens
        }) by {
            law_equal_usage_has_one_key(events[before], events[i]);
        }
    }
    positions
}

/// Two kept events differ in their time, their model or one of their token counts.
pub proof fn law_kept_usage_differs(events: Seq<CodexTokenUsageEvent>, left: int, right: int)
    requires
        0 <= left < right < dedupe::deduped(events).len(),
    ensures
        ({
            let one = dedupe::deduped(events)[left];
            let other = dedupe::deduped(events)[right];
            ||| one.timestamp@ != other.timestamp@
            ||| (one.model is Some) != (other.model is Some)
            ||| (one.model is Some && one.model->Some_0@ != other.model->Some_0@)
            ||| one.input_tokens != other.input_tokens
            ||| one.cached_input_tokens != other.cached_input_tokens
            ||| one.output_tokens != other.output_tokens
            ||| one.reasoning_output_tokens != other.reasoning_output_tokens
            ||| one.total_tokens != other.total_tokens
        }),
{
    dedupe::lemma_deduped_keys(events);
    law_equal_usage_has_one_key(dedupe::deduped(events)[left], dedupe::deduped(events)[right]);
}

/// Each event has a kept event of its time, its model and its token counts.
pub proof fn law_usage_is_kept(events: Seq<CodexTokenUsageEvent>, position: int) -> (kept: int)
    requires
        0 <= position < events.len(),
    ensures
        0 <= kept < dedupe::deduped(events).len(),
        dedupe::deduped(events)[kept].timestamp@ == events[position].timestamp@,
        dedupe::deduped(events)[kept].model is Some <==> events[position].model is Some,
        events[position].model is Some ==> dedupe::deduped(events)[kept].model->Some_0@
            == events[position].model->Some_0@,
        dedupe::deduped(events)[kept].input_tokens == events[position].input_tokens,
        dedupe::deduped(events)[kept].cached_input_tokens == events[position].cached_input_tokens,
        dedupe::deduped(events)[kept].output_tokens == events[position].output_tokens,
        dedupe::deduped(events)[kept].reasoning_output_tokens
            == events[position].reasoning_output_tokens,
        dedupe::deduped(events)[kept].total_tokens == events[position].total_tokens,
{
    let all = dedupe::deduped(events);
    let wanted = key::key_of(events[position]);
    dedupe::lemma_deduped_keys(events);
    assert(dedupe::has_copy(events, wanted));
    let kept = choose|k: int| 0 <= k < all.len() && key::key_of(#[trigger] all[k]) == wanted;
    law_equal_usage_has_one_key(all[kept], events[position]);
    kept
}

/// A kept event carries `Standard` if and only if an event of its time, model and token counts
/// carries it, and `Fast` if and only if one of them carries it and none carries `Standard`.
pub proof fn law_kept_tier(events: Seq<CodexTokenUsageEvent>, kept: int)
    requires
        0 <= kept < dedupe::deduped(events).len(),
    ensures
        ({
            let event = dedupe::deduped(events)[kept];
            let standard = exists|i: int|
                {
                    &&& 0 <= i < events.len()
                    &&& (#[trigger] events[i]).service_tier == Some(CodexServiceTier::Standard)
                    &&& events[i].timestamp@ == event.timestamp@
                    &&& events[i].model is Some <==> event.model is Some
                    &&& event.model is Some ==> events[i].model->Some_0@ == event.model->Some_0@
                    &&& events[i].input_tokens == event.input_tokens
                    &&& events[i].cached_input_tokens == event.cached_input_tokens
                    &&& events[i].output_tokens == event.output_tokens
                    &&& events[i].reasoning_output_tokens == event.reasoning_output_tokens
                    &&& events[i].total_tokens == event.total_tokens
                };
            let fast = exists|i: int|
                {
                    &&& 0 <= i < events.len()
                    &&& (#[trigger] events[i]).service_tier == Some(CodexServiceTier::Fast)
                    &&& events[i].timestamp@ == event.timestamp@
                    &&& events[i].model is Some <==> event.model is Some
                    &&& event.model is Some ==> events[i].model->Some_0@ == event.model->Some_0@
                    &&& events[i].input_tokens == event.input_tokens
                    &&& events[i].cached_input_tokens == event.cached_input_tokens
                    &&& events[i].output_tokens == event.output_tokens
                    &&& events[i].reasoning_output_tokens == event.reasoning_output_tokens
                    &&& events[i].total_tokens == event.total_tokens
                };
            &&& event.service_tier == Some(CodexServiceTier::Standard) <==> standard
            &&& event.service_tier == Some(CodexServiceTier::Fast) <==> fast && !standard
            &&& event.service_tier is None <==> !fast && !standard
        }),
{
    let event = dedupe::deduped(events)[kept];
    let wanted = key::key_of(event);
    dedupe::lemma_first_positions(events);
    let position = dedupe::first_positions(events)[kept];
    law_equal_usage_has_one_key(event, events[position]);
    assert forall|i: int| 0 <= i < events.len() implies (key::key_of(#[trigger] events[i])
        == wanted <==> {
        &&& events[i].timestamp@ == event.timestamp@
        &&& events[i].model is Some <==> event.model is Some
        &&& event.model is Some ==> events[i].model->Some_0@ == event.model->Some_0@
        &&& events[i].input_tokens == event.input_tokens
        &&& events[i].cached_input_tokens == event.cached_input_tokens
        &&& events[i].output_tokens == event.output_tokens
        &&& events[i].reasoning_output_tokens == event.reasoning_output_tokens
        &&& events[i].total_tokens == event.total_tokens
    }) by {
        law_equal_usage_has_one_key(events[i], event);
    }
    if dedupe::has_copy_with_tier(events, wanted, CodexServiceTier::Standard) {
        let i = choose|i: int|
            0 <= i < events.len() && key::key_of(#[trigger] events[i]) == wanted
                && events[i].service_tier == Some(CodexServiceTier::Standard);
        assert(events[i].service_tier == Some(CodexServiceTier::Standard));
    }
    if dedupe::has_copy_with_tier(events, wanted, CodexServiceTier::Fast) {
        let i = choose|i: int|
            0 <= i < events.len() && key::key_of(#[trigger] events[i]) == wanted
                && events[i].service_tier == Some(CodexServiceTier::Fast);
        assert(events[i].service_tier == Some(CodexServiceTier::Fast));
    }
}

/// A load counts usage once: of all the events of one time, model and token counts that are read,
/// in whatever logs and under whatever sessions, it gives exactly one.
///
/// The law hands back the groups that are read, the plan, and the readings of the groups.
pub proof fn law_loads_count_usage_once<Plan, Prefix, Collect, Planner, Lookup, Visit, Work>(
    access: CodexLogAccess<Collect, Planner, Lookup, Visit, Work>,
    single_thread: bool,
    usage_sources: Seq<CodexUsageSource>,
    events: Seq<CodexTokenUsageEvent>,
) -> (read: (Vec<CodexUsageGroup>, Plan, Seq<Seq<CodexTokenUsageEvent>>)) where
    Collect: Fn(&String) -> Vec<SessionFile>,
    Planner: Fn(&Vec<CodexUsageGroup>, bool) -> Plan,
    Lookup: Fn(&Plan, &SessionFile) -> Prefix,
    Visit: Fn(&String, &SessionFile, Prefix) -> SessionVisit,
    Work: Fn(&String, &Vec<SessionFile>, &Plan, &Vec<Vec<usize>>) -> Vec<LoadedFile>,

    requires
        loader::is_sources_load(access, single_thread, usage_sources, events),
    ensures
        loader::are_source_groups(access.collect_files, usage_sources, &read.0),
        loader::is_load_from(
            access,
            single_thread,
            single_thread,
            &read.0,
            read.1,
            read.2,
            events,
        ),
        forall|i: int, j: int|
            #![trigger read.2[i][j]]
            0 <= i < read.2.len() && 0 <= j < read.2[i].len() ==> exists|at: int|
                {
                    &&& 0 <= at < events.len()
                    &&& (#[trigger] events[at]).timestamp@ == read.2[i][j].timestamp@
                    &&& events[at].model is Some <==> read.2[i][j].model is Some
                    &&& events[at].model is Some ==> events[at].model->Some_0@
                        == read.2[i][j].model->Some_0@
                    &&& events[at].input_tokens == read.2[i][j].input_tokens
                    &&& events[at].cached_input_tokens == read.2[i][j].cached_input_tokens
                    &&& events[at].output_tokens == read.2[i][j].output_tokens
                    &&& events[at].reasoning_output_tokens == read.2[i][j].reasoning_output_tokens
                    &&& events[at].total_tokens == read.2[i][j].total_tokens
                },
        forall|left: int, right: int|
            #![trigger events[left], events[right]]
            0 <= left < right < events.len() ==> !({
                &&& events[left].timestamp@ == events[right].timestamp@
                &&& events[left].model is Some <==> events[right].model is Some
                &&& events[left].model is Some ==> events[left].model->Some_0@
                    == events[right].model->Some_0@
                &&& events[left].input_tokens == events[right].input_tokens
                &&& events[left].cached_input_tokens == events[right].cached_input_tokens
                &&& events[left].output_tokens == events[right].output_tokens
                &&& events[left].reasoning_output_tokens == events[right].reasoning_output_tokens
                &&& events[left].total_tokens == events[right].total_tokens
            }),
        forall|at: int|
            0 <= at < events.len() ==> exists|i: int, j: int|
                {
                    &&& 0 <= i < read.2.len()
                    &&& 0 <= j < read.2[i].len()
                    &&& (#[trigger] events[at]) == (CodexTokenUsageEvent {
                        service_tier: events[at].service_tier,
                        ..#[trigger] read.2[i][j]
                    })
                },
{
    let read = loads::law_loads_hold_what_is_read(access, single_thread, usage_sources, events);
    let readings = read.2;
    let all = readings.flatten();
    assert forall|i: int, j: int|
        #![trigger readings[i][j]]
        0 <= i < readings.len() && 0 <= j < readings[i].len() implies exists|at: int|
        {
            &&& 0 <= at < events.len()
            &&& (#[trigger] events[at]).timestamp@ == readings[i][j].timestamp@
            &&& events[at].model is Some <==> readings[i][j].model is Some
            &&& events[at].model is Some ==> events[at].model->Some_0@
                == readings[i][j].model->Some_0@
            &&& events[at].input_tokens == readings[i][j].input_tokens
            &&& events[at].cached_input_tokens == readings[i][j].cached_input_tokens
            &&& events[at].output_tokens == readings[i][j].output_tokens
            &&& events[at].reasoning_output_tokens == readings[i][j].reasoning_output_tokens
            &&& events[at].total_tokens == readings[i][j].total_tokens
        } by {
        lists::lemma_flatten_holds(readings, i, j);
        let position = choose|k: int| 0 <= k < all.len() && all[k] == readings[i][j];
        let kept = law_usage_is_kept(all, position);
        assert(events[kept].timestamp@ == readings[i][j].timestamp@);
    }
    assert forall|left: int, right: int|
        #![trigger events[left], events[right]]
        0 <= left < right < events.len() implies !({
        &&& events[left].timestamp@ == events[right].timestamp@
        &&& events[left].model is Some <==> events[right].model is Some
        &&& events[left].model is Some ==> events[left].model->Some_0@
            == events[right].model->Some_0@
        &&& events[left].input_tokens == events[right].input_tokens
        &&& events[left].cached_input_tokens == events[right].cached_input_tokens
        &&& events[left].output_tokens == events[right].output_tokens
        &&& events[left].reasoning_output_tokens == events[right].reasoning_output_tokens
        &&& events[left].total_tokens == events[right].total_tokens
    }) by {
        law_kept_usage_differs(all, left, right);
    }
    let positions = law_first_of_equal_usage_is_kept(all);
    assert forall|at: int| 0 <= at < events.len() implies exists|i: int, j: int|
        {
            &&& 0 <= i < readings.len()
            &&& 0 <= j < readings[i].len()
            &&& (#[trigger] events[at]) == (CodexTokenUsageEvent {
                service_tier: events[at].service_tier,
                ..#[trigger] readings[i][j]
            })
        } by {
        let (i, j) = lists::lemma_flatten_origin(readings, positions[at]);
        assert(events[at] == dedupe::deduped(all)[at]);
        assert(readings[i][j] == all[positions[at]]);
    }
    read
}

} // verus!

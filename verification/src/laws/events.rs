//! Laws of keeping one copy of each event.

use vstd::prelude::*;

use crate::dedupe;
use crate::event::CodexTokenUsageEvent;
use crate::key;
use crate::tier;
use crate::tier::CodexServiceTier;

verus! {

/// The merged tier of some copies depends neither on their order nor on how they are grouped, nor
/// on how often one of them occurs, and a copy without a tier changes nothing.
pub proof fn law_tier_merge(
    first: Option<CodexServiceTier>,
    second: Option<CodexServiceTier>,
    third: Option<CodexServiceTier>,
)
    ensures
        tier::merged_tier(first, second) == tier::merged_tier(second, first),
        tier::merged_tier(tier::merged_tier(first, second), third) == tier::merged_tier(
            first,
            tier::merged_tier(second, third),
        ),
        tier::merged_tier(first, first) == first,
        tier::merged_tier(first, None) == first,
{
    match first {
        Some(CodexServiceTier::Standard) => {},
        Some(CodexServiceTier::Fast) => {},
        None => {},
    }
}

/// No two of the kept events are copies of one another.
pub proof fn law_kept_events_are_no_copies(
    events: Seq<CodexTokenUsageEvent>,
    left: int,
    right: int,
)
    requires
        0 <= left < right < dedupe::deduped(events).len(),
    ensures
        key::key_of(dedupe::deduped(events)[left]) != key::key_of(dedupe::deduped(events)[right]),
{
    dedupe::lemma_deduped_keys(events);
}

/// Of each event a copy is kept, and each kept event is a copy of one that came in.
pub proof fn law_no_usage_is_lost_or_invented(
    events: Seq<CodexTokenUsageEvent>,
    copy_key: key::KeyView,
)
    ensures
        dedupe::has_copy(dedupe::deduped(events), copy_key) == dedupe::has_copy(events, copy_key),
{
    dedupe::lemma_deduped_keys(events);
}

/// The kept events stand in the order in which they came in, each is the first of its copies, and
/// differs from it in no more than the tier.
pub proof fn law_first_copies_are_kept_in_order(
    events: Seq<CodexTokenUsageEvent>,
    kept: int,
) -> (position: int)
    requires
        0 <= kept < dedupe::deduped(events).len(),
    ensures
        position == dedupe::first_positions(events)[kept],
        0 <= position < events.len(),
        !dedupe::has_copy(events.take(position), key::key_of(events[position])),
        dedupe::deduped(events)[kept] == (CodexTokenUsageEvent {
            service_tier: dedupe::deduped(events)[kept].service_tier,
            ..events[position]
        }),
        kept > 0 ==> dedupe::first_positions(events)[kept - 1] < position,
{
    dedupe::lemma_first_positions(events);
    dedupe::first_positions(events)[kept]
}

/// A kept event carries a tier if and only if one of its copies does, and then one that a copy
/// carries: `Standard` where copies disagree.
pub proof fn law_recorded_tiers_survive(events: Seq<CodexTokenUsageEvent>, kept: int)
    requires
        0 <= kept < dedupe::deduped(events).len(),
    ensures
        ({
            let event = dedupe::deduped(events)[kept];
            let copy_key = key::key_of(event);
            let standard = dedupe::has_copy_with_tier(events, copy_key, CodexServiceTier::Standard);
            let fast = dedupe::has_copy_with_tier(events, copy_key, CodexServiceTier::Fast);
            &&& event.service_tier is None <==> !standard && !fast
            &&& event.service_tier == Some(CodexServiceTier::Standard) <==> standard
            &&& event.service_tier == Some(CodexServiceTier::Fast) <==> fast && !standard
        }),
{
    dedupe::lemma_first_positions(events);
    let position = dedupe::first_positions(events)[kept];
    assert(key::key_of(dedupe::deduped(events)[kept]) == key::key_of(events[position]));
}

/// The order in which copies come in does not matter to the tier that is kept.
pub proof fn law_tiers_do_not_depend_on_order(
    events: Seq<CodexTokenUsageEvent>,
    reordered: Seq<CodexTokenUsageEvent>,
    kept: int,
    kept_reordered: int,
)
    requires
        events.to_multiset() == reordered.to_multiset(),
        0 <= kept < dedupe::deduped(events).len(),
        0 <= kept_reordered < dedupe::deduped(reordered).len(),
        key::key_of(dedupe::deduped(events)[kept]) == key::key_of(
            dedupe::deduped(reordered)[kept_reordered],
        ),
    ensures
        dedupe::deduped(events)[kept].service_tier
            == dedupe::deduped(reordered)[kept_reordered].service_tier,
{
    let copy_key = key::key_of(dedupe::deduped(events)[kept]);
    assert forall|copy_tier: CodexServiceTier| #[trigger]
        dedupe::has_copy_with_tier(events, copy_key, copy_tier) == dedupe::has_copy_with_tier(
            reordered,
            copy_key,
            copy_tier,
        ) by {
        if dedupe::has_copy_with_tier(events, copy_key, copy_tier) {
            lemma_copy_with_tier_reordered(events, reordered, copy_key, copy_tier);
        }
        if dedupe::has_copy_with_tier(reordered, copy_key, copy_tier) {
            lemma_copy_with_tier_reordered(reordered, events, copy_key, copy_tier);
        }
    }
    law_recorded_tiers_survive(events, kept);
    law_recorded_tiers_survive(reordered, kept_reordered);
    assert(dedupe::has_copy_with_tier(events, copy_key, CodexServiceTier::Standard)
        == dedupe::has_copy_with_tier(reordered, copy_key, CodexServiceTier::Standard));
    assert(dedupe::has_copy_with_tier(events, copy_key, CodexServiceTier::Fast)
        == dedupe::has_copy_with_tier(reordered, copy_key, CodexServiceTier::Fast));
    let left = dedupe::deduped(events)[kept].service_tier;
    let right = dedupe::deduped(reordered)[kept_reordered].service_tier;
    match left {
        Some(CodexServiceTier::Standard) => {},
        Some(CodexServiceTier::Fast) => {},
        None => {},
    }
}

proof fn lemma_copy_with_tier_reordered(
    events: Seq<CodexTokenUsageEvent>,
    reordered: Seq<CodexTokenUsageEvent>,
    copy_key: key::KeyView,
    copy_tier: CodexServiceTier,
)
    requires
        events.to_multiset() == reordered.to_multiset(),
        dedupe::has_copy_with_tier(events, copy_key, copy_tier),
    ensures
        dedupe::has_copy_with_tier(reordered, copy_key, copy_tier),
{
    let i = choose|i: int|
        0 <= i < events.len() && key::key_of(#[trigger] events[i]) == copy_key
            && events[i].service_tier == Some(copy_tier);
    events.to_multiset_ensures();
    reordered.to_multiset_ensures();
    assert(events.contains(events[i]));
    assert(events.to_multiset().count(events[i]) > 0);
    assert(reordered.contains(events[i]));
}

/// In whatever order events come in, as many of them are kept, with the same keys.
pub proof fn law_kept_keys_do_not_depend_on_order(
    events: Seq<CodexTokenUsageEvent>,
    reordered: Seq<CodexTokenUsageEvent>,
)
    requires
        events.to_multiset() == reordered.to_multiset(),
    ensures
        dedupe::deduped(events).len() == dedupe::deduped(reordered).len(),
        forall|copy_key: key::KeyView| #[trigger]
            dedupe::has_copy(dedupe::deduped(events), copy_key) == dedupe::has_copy(
                dedupe::deduped(reordered),
                copy_key,
            ),
{
    let kept = dedupe::deduped(events);
    let kept_reordered = dedupe::deduped(reordered);
    dedupe::lemma_deduped_keys(events);
    dedupe::lemma_deduped_keys(reordered);
    assert forall|copy_key: key::KeyView| #[trigger]
        dedupe::has_copy(kept, copy_key) == dedupe::has_copy(kept_reordered, copy_key) by {
        assert(dedupe::has_copy(kept, copy_key) == dedupe::has_copy(events, copy_key));
        assert(dedupe::has_copy(kept_reordered, copy_key) == dedupe::has_copy(
            reordered,
            copy_key,
        ));
        if dedupe::has_copy(events, copy_key) {
            lemma_copy_reordered(events, reordered, copy_key);
        }
        if dedupe::has_copy(reordered, copy_key) {
            lemma_copy_reordered(reordered, events, copy_key);
        }
    }
    let keys = kept.map_values(|event: CodexTokenUsageEvent| key::key_of(event));
    let keys_reordered = kept_reordered.map_values(
        |event: CodexTokenUsageEvent| key::key_of(event),
    );
    assert forall|left: int, right: int|
        0 <= left < keys.len() && 0 <= right < keys.len() && left != right implies keys[left]
        != keys[right] by {
        assert(key::key_of(kept[left]) != key::key_of(kept[right]));
    }
    assert forall|left: int, right: int|
        0 <= left < keys_reordered.len() && 0 <= right < keys_reordered.len() && left
            != right implies keys_reordered[left] != keys_reordered[right] by {
        assert(key::key_of(kept_reordered[left]) != key::key_of(kept_reordered[right]));
    }
    keys.unique_seq_to_set();
    keys_reordered.unique_seq_to_set();
    assert forall|copy_key: key::KeyView|
        keys.to_set().contains(copy_key) == keys_reordered.to_set().contains(copy_key) by {
        assert(dedupe::has_copy(kept, copy_key) == dedupe::has_copy(kept_reordered, copy_key));
        lemma_has_copy_is_key(kept, copy_key);
        lemma_has_copy_is_key(kept_reordered, copy_key);
    }
    assert(keys.to_set() =~= keys_reordered.to_set());
}

proof fn lemma_has_copy_is_key(events: Seq<CodexTokenUsageEvent>, copy_key: key::KeyView)
    ensures
        dedupe::has_copy(events, copy_key) == events.map_values(
            |event: CodexTokenUsageEvent| key::key_of(event),
        ).to_set().contains(copy_key),
{
    let keys = events.map_values(|event: CodexTokenUsageEvent| key::key_of(event));
    if dedupe::has_copy(events, copy_key) {
        let i = choose|i: int|
            0 <= i < events.len() && key::key_of(#[trigger] events[i]) == copy_key;
        assert(keys[i] == copy_key);
    }
    if keys.contains(copy_key) {
        let i = choose|i: int| 0 <= i < keys.len() && keys[i] == copy_key;
        assert(key::key_of(events[i]) == copy_key);
    }
}

proof fn lemma_copy_reordered(
    events: Seq<CodexTokenUsageEvent>,
    reordered: Seq<CodexTokenUsageEvent>,
    copy_key: key::KeyView,
)
    requires
        events.to_multiset() == reordered.to_multiset(),
        dedupe::has_copy(events, copy_key),
    ensures
        dedupe::has_copy(reordered, copy_key),
{
    let i = choose|i: int|
        0 <= i < events.len() && key::key_of(#[trigger] events[i]) == copy_key;
    events.to_multiset_ensures();
    reordered.to_multiset_ensures();
    assert(events.contains(events[i]));
    assert(events.to_multiset().count(events[i]) > 0);
    assert(reordered.contains(events[i]));
}

/// Events of which no two are copies of one another all stay as they are.
pub proof fn law_distinct_events_stay(events: Seq<CodexTokenUsageEvent>)
    requires
        forall|left: int, right: int|
            0 <= left < right < events.len() ==> key::key_of(#[trigger] events[left])
                != key::key_of(#[trigger] events[right]),
    ensures
        dedupe::deduped(events) == events,
    decreases events.len(),
{
    if events.len() == 0 {
        assert(dedupe::deduped(events) =~= events);
    } else {
        let before = events.drop_last();
        law_distinct_events_stay(before);
        dedupe::lemma_deduped_push(before, events.last());
        assert(before.push(events.last()) =~= events);
        assert(!dedupe::has_copy(before, key::key_of(events.last())));
    }
}

/// Keeping the first copies a second time changes nothing.
pub proof fn law_dedupe_is_idempotent(events: Seq<CodexTokenUsageEvent>)
    ensures
        dedupe::deduped(dedupe::deduped(events)) == dedupe::deduped(events),
{
    dedupe::lemma_deduped_keys(events);
    law_distinct_events_stay(dedupe::deduped(events));
}

/// Keeping the first copies of some events before they come after others makes no difference.
pub proof fn law_dedupe_can_be_prepared(
    events: Seq<CodexTokenUsageEvent>,
    more: Seq<CodexTokenUsageEvent>,
)
    ensures
        dedupe::deduped(events + dedupe::deduped(more)) == dedupe::deduped(events + more),
    decreases more.len(),
{
    if more.len() == 0 {
        assert(dedupe::deduped(more) =~= more);
    } else {
        let before = more.drop_last();
        let event = more.last();
        let kept = dedupe::deduped(before);
        law_dedupe_can_be_prepared(events, before);
        assert(before.push(event) =~= more);
        dedupe::lemma_deduped_push(before, event);
        assert(events + more =~= (events + before).push(event));
        lemma_deduped_push_alike(events + kept, events + before, event);
        if dedupe::has_copy(kept, key::key_of(event)) {
            let j = choose|j: int|
                0 <= j < kept.len() && key::key_of(#[trigger] kept[j]) == key::key_of(event);
            let position = events.len() + j;
            assert((events + kept)[position] == kept[j]);
            lemma_deduped_update(events + kept, position, event);
            let merged = CodexTokenUsageEvent {
                service_tier: tier::merged_tier(kept[j].service_tier, event.service_tier),
                ..kept[j]
            };
            assert(dedupe::deduped(more) == kept.update(j, merged));
            assert(events + kept.update(j, merged) =~= (events + kept).update(position, merged));
        } else {
            assert(events + kept.push(event) =~= (events + kept).push(event));
        }
    }
}

/// What one more event makes of two lists depends only on what is kept of them.
proof fn lemma_deduped_push_alike(
    left: Seq<CodexTokenUsageEvent>,
    right: Seq<CodexTokenUsageEvent>,
    event: CodexTokenUsageEvent,
)
    requires
        dedupe::deduped(left) == dedupe::deduped(right),
    ensures
        dedupe::deduped(left.push(event)) == dedupe::deduped(right.push(event)),
{
    let kept = dedupe::deduped(left);
    dedupe::lemma_deduped_push(left, event);
    dedupe::lemma_deduped_push(right, event);
    if dedupe::has_copy(kept, key::key_of(event)) {
        let j = choose|j: int|
            0 <= j < kept.len() && key::key_of(#[trigger] kept[j]) == key::key_of(event);
        assert(key::key_of(kept[j]) == key::key_of(event));
    }
}

/// To merge the tier of a copy into an event is as good as to add the copy.
proof fn lemma_deduped_update(
    events: Seq<CodexTokenUsageEvent>,
    position: int,
    event: CodexTokenUsageEvent,
)
    requires
        0 <= position < events.len(),
        key::key_of(events[position]) == key::key_of(event),
    ensures
        dedupe::deduped(
            events.update(
                position,
                CodexTokenUsageEvent {
                    service_tier: tier::merged_tier(
                        events[position].service_tier,
                        event.service_tier,
                    ),
                    ..events[position]
                },
            ),
        ) == dedupe::deduped(events.push(event)),
{
    let merged = CodexTokenUsageEvent {
        service_tier: tier::merged_tier(events[position].service_tier, event.service_tier),
        ..events[position]
    };
    let updated = events.update(position, merged);
    let pushed = events.push(event);
    assert(key::key_of(merged) == key::key_of(event));
    lemma_first_positions_by_keys(updated, events);
    assert(pushed.drop_last() =~= events);
    assert(dedupe::has_copy(events, key::key_of(event)));
    let positions = dedupe::first_positions(events);
    assert(dedupe::first_positions(pushed) == positions);
    dedupe::lemma_first_positions(events);
    assert forall|copy_key: key::KeyView| #[trigger]
        dedupe::tier_of_copies(updated, copy_key) == dedupe::tier_of_copies(pushed, copy_key) by {
        lemma_tier_of_update(events, position, event, copy_key);
    }
    assert forall|j: int| 0 <= j < positions.len() implies dedupe::kept_event(
        updated,
        #[trigger] positions[j],
    ) == dedupe::kept_event(pushed, positions[j]) by {
        assert(key::key_of(updated[positions[j]]) == key::key_of(pushed[positions[j]]));
    }
    assert(dedupe::deduped(updated) =~= dedupe::deduped(pushed));
}

/// The first copies stand where the keys say.
proof fn lemma_first_positions_by_keys(
    left: Seq<CodexTokenUsageEvent>,
    right: Seq<CodexTokenUsageEvent>,
)
    requires
        left.len() == right.len(),
        forall|i: int|
            0 <= i < left.len() ==> key::key_of(#[trigger] left[i]) == key::key_of(right[i]),
    ensures
        dedupe::first_positions(left) == dedupe::first_positions(right),
    decreases left.len(),
{
    if left.len() > 0 {
        let left_before = left.drop_last();
        let right_before = right.drop_last();
        assert forall|i: int| 0 <= i < left_before.len() implies key::key_of(
            #[trigger] left_before[i],
        ) == key::key_of(right_before[i]) by {
            assert(left_before[i] == left[i]);
        }
        lemma_first_positions_by_keys(left_before, right_before);
        let last = key::key_of(left.last());
        assert(last == key::key_of(left[left.len() - 1]));
        if dedupe::has_copy(left_before, last) {
            let i = choose|i: int|
                0 <= i < left_before.len() && key::key_of(#[trigger] left_before[i]) == last;
            assert(key::key_of(right_before[i]) == last);
        }
        if dedupe::has_copy(right_before, last) {
            let i = choose|i: int|
                0 <= i < right_before.len() && key::key_of(#[trigger] right_before[i]) == last;
            assert(key::key_of(left_before[i]) == last);
        }
    }
}

/// The tier of a key's copies when a copy is merged into one of them, or added.
proof fn lemma_tier_of_update(
    events: Seq<CodexTokenUsageEvent>,
    position: int,
    event: CodexTokenUsageEvent,
    copy_key: key::KeyView,
)
    requires
        0 <= position < events.len(),
        key::key_of(events[position]) == key::key_of(event),
    ensures
        dedupe::tier_of_copies(
            events.update(
                position,
                CodexTokenUsageEvent {
                    service_tier: tier::merged_tier(
                        events[position].service_tier,
                        event.service_tier,
                    ),
                    ..events[position]
                },
            ),
            copy_key,
        ) == dedupe::tier_of_copies(events.push(event), copy_key),
{
    let merged = CodexTokenUsageEvent {
        service_tier: tier::merged_tier(events[position].service_tier, event.service_tier),
        ..events[position]
    };
    let updated = events.update(position, merged);
    let pushed = events.push(event);
    let last = events.len() as int;
    assert(key::key_of(merged) == key::key_of(event));
    assert forall|copy_tier: CodexServiceTier| #[trigger]
        dedupe::has_copy_with_tier(updated, copy_key, copy_tier) implies dedupe::has_copy_with_tier(
        pushed,
        copy_key,
        copy_tier,
    ) by {
        let i = choose|i: int|
            0 <= i < updated.len() && key::key_of(#[trigger] updated[i]) == copy_key
                && updated[i].service_tier == Some(copy_tier);
        assert(pushed[last] == event);
        assert(pushed[i] == events[i]);
        assert(i == position ==> key::key_of(pushed[i]) == copy_key && key::key_of(pushed[last])
            == copy_key && (pushed[i].service_tier == Some(copy_tier) || pushed[last].service_tier
            == Some(copy_tier)));
    }
    assert forall|copy_tier: CodexServiceTier| #[trigger]
        dedupe::has_copy_with_tier(pushed, copy_key, copy_tier) implies (
    dedupe::has_copy_with_tier(updated, copy_key, copy_tier) || dedupe::has_copy_with_tier(
        updated,
        copy_key,
        CodexServiceTier::Standard,
    )) by {
        let i = choose|i: int|
            0 <= i < pushed.len() && key::key_of(#[trigger] pushed[i]) == copy_key
                && pushed[i].service_tier == Some(copy_tier);
        if i == last || i == position {
            assert(updated[position] == merged);
            assert(merged.service_tier == Some(copy_tier) || merged.service_tier == Some(
                CodexServiceTier::Standard,
            )) by {
                match copy_tier {
                    CodexServiceTier::Standard => {},
                    CodexServiceTier::Fast => {},
                }
            }
        } else {
            assert(updated[i] == events[i]);
        }
    }
    let standard = CodexServiceTier::Standard;
    let fast = CodexServiceTier::Fast;
    assert(dedupe::has_copy_with_tier(updated, copy_key, standard)
        == dedupe::has_copy_with_tier(pushed, copy_key, standard));
    assert(dedupe::has_copy_with_tier(updated, copy_key, fast) ==> dedupe::has_copy_with_tier(
        pushed,
        copy_key,
        fast,
    ));
    assert(dedupe::has_copy_with_tier(pushed, copy_key, fast) ==> dedupe::has_copy_with_tier(
        updated,
        copy_key,
        fast,
    ) || dedupe::has_copy_with_tier(updated, copy_key, standard));
}

/// Keeping the first copies of some events before more of them come in makes no difference.
pub proof fn law_dedupe_can_be_resumed(
    events: Seq<CodexTokenUsageEvent>,
    more: Seq<CodexTokenUsageEvent>,
)
    ensures
        dedupe::deduped(dedupe::deduped(events) + more) == dedupe::deduped(events + more),
    decreases more.len(),
{
    if more.len() == 0 {
        assert(dedupe::deduped(events) + more =~= dedupe::deduped(events));
        assert(events + more =~= events);
        law_dedupe_is_idempotent(events);
    } else {
        let before = more.drop_last();
        let event = more.last();
        law_dedupe_can_be_resumed(events, before);
        assert(dedupe::deduped(events) + more =~= (dedupe::deduped(events) + before).push(event));
        assert(events + more =~= (events + before).push(event));
        dedupe::lemma_deduped_push(dedupe::deduped(events) + before, event);
        dedupe::lemma_deduped_push(events + before, event);
        let kept = dedupe::deduped(events + before);
        if dedupe::has_copy(kept, key::key_of(event)) {
            let j = choose|j: int|
                0 <= j < kept.len() && key::key_of(#[trigger] kept[j]) == key::key_of(event);
            assert(key::key_of(kept[j]) == key::key_of(event));
        }
    }
}

/// A history that only repeats events, as the log of a branched session does, adds no usage: the
/// same events are kept as without it, but for their tiers.
pub proof fn law_copied_history_adds_no_usage(
    events: Seq<CodexTokenUsageEvent>,
    copied: Seq<CodexTokenUsageEvent>,
)
    requires
        forall|i: int|
            0 <= i < copied.len() ==> dedupe::has_copy(events, key::key_of(#[trigger] copied[i])),
    ensures
        dedupe::deduped(events + copied).len() == dedupe::deduped(events).len(),
        forall|kept: int|
            0 <= kept < dedupe::deduped(events).len() ==> (#[trigger] dedupe::deduped(
                events + copied,
            )[kept]) == (CodexTokenUsageEvent {
                service_tier: dedupe::deduped(events + copied)[kept].service_tier,
                ..dedupe::deduped(events)[kept]
            }),
    decreases copied.len(),
{
    if copied.len() == 0 {
        assert(events + copied =~= events);
    } else {
        let before = copied.drop_last();
        let event = copied.last();
        assert forall|i: int| 0 <= i < before.len() implies dedupe::has_copy(
            events,
            key::key_of(#[trigger] before[i]),
        ) by {
            assert(before[i] == copied[i]);
        }
        law_copied_history_adds_no_usage(events, before);
        assert(events + copied =~= (events + before).push(event));
        dedupe::lemma_deduped_push(events + before, event);
        dedupe::lemma_deduped_keys(events + before);
        let kept = dedupe::deduped(events + before);
        let i = choose|i: int|
            0 <= i < events.len() && key::key_of(#[trigger] events[i]) == key::key_of(event);
        assert((events + before)[i] == events[i]);
        assert(dedupe::has_copy(events + before, key::key_of(event)));
        let j = choose|j: int|
            0 <= j < kept.len() && key::key_of(#[trigger] kept[j]) == key::key_of(event);
        assert(key::key_of(kept[j]) == key::key_of(event));
    }
}

/// Events that come in again, as they are, change nothing.
pub proof fn law_repeated_events_change_nothing(
    events: Seq<CodexTokenUsageEvent>,
    repeated: Seq<CodexTokenUsageEvent>,
)
    requires
        forall|i: int| 0 <= i < repeated.len() ==> events.contains(#[trigger] repeated[i]),
    ensures
        dedupe::deduped(events + repeated) == dedupe::deduped(events),
    decreases repeated.len(),
{
    if repeated.len() == 0 {
        assert(events + repeated =~= events);
    } else {
        let before = repeated.drop_last();
        let event = repeated.last();
        assert forall|i: int| 0 <= i < before.len() implies events.contains(
            #[trigger] before[i],
        ) by {
            assert(before[i] == repeated[i]);
        }
        law_repeated_events_change_nothing(events, before);
        let all = events + before;
        assert(events + repeated =~= all.push(event));
        assert(events.contains(repeated[repeated.len() - 1]));
        let i = choose|i: int| 0 <= i < events.len() && events[i] == event;
        assert(all[i] == event);
        dedupe::lemma_deduped_push(all, event);
        dedupe::lemma_deduped_keys(all);
        assert(dedupe::has_copy(all, key::key_of(event)));
        let kept = dedupe::deduped(all);
        let j = choose|j: int|
            0 <= j < kept.len() && key::key_of(#[trigger] kept[j]) == key::key_of(event);
        dedupe::lemma_first_positions(all);
        let position = dedupe::first_positions(all)[j];
        assert(kept[j] == dedupe::kept_event(all, position));
        assert(key::key_of(kept[j]) == key::key_of(all[position]));
        assert(event.service_tier is Some ==> dedupe::has_copy_with_tier(
            all,
            key::key_of(event),
            event.service_tier->Some_0,
        ));
        assert(tier::merged_tier(kept[j].service_tier, event.service_tier)
            == kept[j].service_tier);
        assert(kept.update(j, kept[j]) =~= kept);
    }
}

} // verus!

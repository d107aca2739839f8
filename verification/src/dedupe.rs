//! Keeping one of the copies of each event.

use vstd::prelude::*;

use crate::event::CodexTokenUsageEvent;
use crate::index::PositionIndex;
use crate::key;
use crate::key::EventKey;
use crate::tier;
use crate::tier::CodexServiceTier;

verus! {

/// Whether `events` holds an event with the given key that carries the given tier.
pub open spec fn has_copy_with_tier(
    events: Seq<CodexTokenUsageEvent>,
    copy_key: key::KeyView,
    tier: CodexServiceTier,
) -> bool {
    exists|i: int|
        0 <= i < events.len() && key::key_of(#[trigger] events[i]) == copy_key
            && events[i].service_tier == Some(tier)
}

/// The tier of the events with the given key, taken together: `Standard` where one of them carries
/// it, else `Fast` where one of them carries it, else none.
pub open spec fn tier_of_copies(
    events: Seq<CodexTokenUsageEvent>,
    copy_key: key::KeyView,
) -> Option<CodexServiceTier> {
    if has_copy_with_tier(events, copy_key, CodexServiceTier::Standard) {
        Some(CodexServiceTier::Standard)
    } else if has_copy_with_tier(events, copy_key, CodexServiceTier::Fast) {
        Some(CodexServiceTier::Fast)
    } else {
        None
    }
}

/// Whether `events` holds an event with the given key.
pub open spec fn has_copy(events: Seq<CodexTokenUsageEvent>, copy_key: key::KeyView) -> bool {
    exists|i: int| 0 <= i < events.len() && key::key_of(#[trigger] events[i]) == copy_key
}

/// The positions of the events that no copy precedes, in order.
pub open spec fn first_positions(events: Seq<CodexTokenUsageEvent>) -> Seq<int>
    decreases events.len(),
{
    if events.len() == 0 {
        Seq::empty()
    } else {
        let before = events.drop_last();
        if has_copy(before, key::key_of(events.last())) {
            first_positions(before)
        } else {
            first_positions(before).push(before.len() as int)
        }
    }
}

/// The event at `position` as it is kept: with the tier of all its copies.
pub open spec fn kept_event(
    events: Seq<CodexTokenUsageEvent>,
    position: int,
) -> CodexTokenUsageEvent {
    CodexTokenUsageEvent {
        service_tier: tier_of_copies(events, key::key_of(events[position])),
        ..events[position]
    }
}

/// The first copy of each event, in the order of `events`, each with the tier of all its copies.
pub open spec fn deduped(events: Seq<CodexTokenUsageEvent>) -> Seq<CodexTokenUsageEvent> {
    first_positions(events).map_values(|position: int| kept_event(events, position))
}

/// `first_positions` ascends, and holds a position if and only if no copy precedes the event
/// there.
pub proof fn lemma_first_positions(events: Seq<CodexTokenUsageEvent>)
    ensures
        forall|j: int|
            0 <= j < first_positions(events).len() ==> 0 <= #[trigger] first_positions(events)[j]
                < events.len(),
        forall|j: int|
            0 <= j < first_positions(events).len() ==> !has_copy(
                events.take(#[trigger] first_positions(events)[j]),
                key::key_of(events[first_positions(events)[j]]),
            ),
        forall|j: int, k: int|
            0 <= j < k < first_positions(events).len() ==> #[trigger] first_positions(events)[j]
                < #[trigger] first_positions(events)[k],
        forall|i: int|
            0 <= i < events.len() && !has_copy(#[trigger] events.take(i), key::key_of(events[i]))
                ==> first_positions(events).contains(i),
    decreases events.len(),
{
    if events.len() > 0 {
        let before = events.drop_last();
        let last = before.len() as int;
        lemma_first_positions(before);
        assert(events.take(last) =~= before);
        assert forall|i: int| 0 <= i < last implies #[trigger] events.take(i) == before.take(i) by {
            assert(events.take(i) =~= before.take(i));
        }
        assert forall|i: int|
            0 <= i < events.len() && !has_copy(
                #[trigger] events.take(i),
                key::key_of(events[i]),
            ) implies first_positions(events).contains(i) by {
            if i < last {
                assert(before[i] == events[i]);
                assert(!has_copy(before.take(i), key::key_of(before[i])));
                let j = choose|j: int|
                    0 <= j < first_positions(before).len() && first_positions(before)[j] == i;
                assert(first_positions(events)[j] == i);
            } else {
                assert(first_positions(events)[first_positions(before).len() as int] == last);
            }
        }
    }
}

/// The tier of a key's copies when one more event comes.
proof fn lemma_tier_push(
    events: Seq<CodexTokenUsageEvent>,
    event: CodexTokenUsageEvent,
    copy_key: key::KeyView,
)
    ensures
        tier_of_copies(events.push(event), copy_key) == if key::key_of(event) == copy_key {
            tier::merged_tier(tier_of_copies(events, copy_key), event.service_tier)
        } else {
            tier_of_copies(events, copy_key)
        },
{
    let all = events.push(event);
    assert forall|tier: CodexServiceTier| #[trigger]
        has_copy_with_tier(all, copy_key, tier) == (has_copy_with_tier(events, copy_key, tier) || (
        key::key_of(event) == copy_key && event.service_tier == Some(tier))) by {
        if has_copy_with_tier(events, copy_key, tier) {
            let i = choose|i: int|
                0 <= i < events.len() && key::key_of(#[trigger] events[i]) == copy_key
                    && events[i].service_tier == Some(tier);
            assert(all[i] == events[i]);
        }
        if key::key_of(event) == copy_key && event.service_tier == Some(tier) {
            assert(all[events.len() as int] == event);
        }
        if has_copy_with_tier(all, copy_key, tier) {
            let i = choose|i: int|
                0 <= i < all.len() && key::key_of(#[trigger] all[i]) == copy_key
                    && all[i].service_tier == Some(tier);
            if i < events.len() {
                assert(events[i] == all[i]);
            }
        }
    }
    assert(has_copy_with_tier(all, copy_key, CodexServiceTier::Standard) == (has_copy_with_tier(
        events,
        copy_key,
        CodexServiceTier::Standard,
    ) || (key::key_of(event) == copy_key && event.service_tier == Some(
        CodexServiceTier::Standard,
    ))));
    assert(has_copy_with_tier(all, copy_key, CodexServiceTier::Fast) == (has_copy_with_tier(
        events,
        copy_key,
        CodexServiceTier::Fast,
    ) || (key::key_of(event) == copy_key && event.service_tier == Some(CodexServiceTier::Fast))));
}

/// No two kept events have one key, and a key is kept if and only if an event has it.
pub proof fn lemma_deduped_keys(events: Seq<CodexTokenUsageEvent>)
    ensures
        forall|j: int, k: int|
            0 <= j < k < deduped(events).len() ==> key::key_of(#[trigger] deduped(events)[j])
                != key::key_of(#[trigger] deduped(events)[k]),
        forall|copy_key: key::KeyView|
            has_copy(deduped(events), copy_key) == #[trigger] has_copy(events, copy_key),
{
    let positions = first_positions(events);
    let kept = deduped(events);
    lemma_first_positions(events);
    assert forall|j: int| 0 <= j < kept.len() implies key::key_of(#[trigger] kept[j])
        == key::key_of(events[positions[j]]) by {}
    assert forall|j: int, k: int| 0 <= j < k < kept.len() implies key::key_of(#[trigger] kept[j])
        != key::key_of(#[trigger] kept[k]) by {
        let before = events.take(positions[k]);
        assert(before[positions[j]] == events[positions[j]]);
        assert(!has_copy(before, key::key_of(events[positions[k]])));
    }
    assert forall|copy_key: key::KeyView|
        has_copy(kept, copy_key) == #[trigger] has_copy(events, copy_key) by {
        if has_copy(kept, copy_key) {
            let j = choose|j: int|
                0 <= j < kept.len() && key::key_of(#[trigger] kept[j]) == copy_key;
            assert(key::key_of(events[positions[j]]) == copy_key);
        }
        if has_copy(events, copy_key) {
            let i = choose|i: int|
                0 <= i < events.len() && key::key_of(#[trigger] events[i]) == copy_key;
            let first = lemma_first_copy(events, i);
            let j = choose|j: int| 0 <= j < positions.len() && positions[j] == first;
            assert(key::key_of(kept[j]) == copy_key);
        }
    }
}

/// The first copy of the event at `position`.
proof fn lemma_first_copy(events: Seq<CodexTokenUsageEvent>, position: int) -> (first: int)
    requires
        0 <= position < events.len(),
    ensures
        0 <= first <= position,
        key::key_of(events[first]) == key::key_of(events[position]),
        !has_copy(events.take(first), key::key_of(events[first])),
        first_positions(events).contains(first),
    decreases position,
{
    lemma_first_positions(events);
    if has_copy(events.take(position), key::key_of(events[position])) {
        let before = events.take(position);
        let i = choose|i: int|
            0 <= i < before.len() && key::key_of(#[trigger] before[i]) == key::key_of(
                events[position],
            );
        assert(before[i] == events[i]);
        lemma_first_copy(events, i)
    } else {
        position
    }
}

/// What one more event changes: a copy of a kept event only merges its tier into that event, and
/// any other event is kept too.
pub proof fn lemma_deduped_push(
    events: Seq<CodexTokenUsageEvent>,
    event: CodexTokenUsageEvent,
)
    ensures
        !has_copy(deduped(events), key::key_of(event)) ==> deduped(events.push(event))
            == deduped(events).push(event),
        forall|j: int|
            0 <= j < deduped(events).len() && key::key_of(#[trigger] deduped(events)[j])
                == key::key_of(event) ==> deduped(events.push(event)) == deduped(events).update(
                j,
                CodexTokenUsageEvent {
                    service_tier: tier::merged_tier(
                        deduped(events)[j].service_tier,
                        event.service_tier,
                    ),
                    ..deduped(events)[j]
                },
            ),
{
    let all = events.push(event);
    let positions = first_positions(events);
    let kept = deduped(events);
    assert(all.drop_last() =~= events);
    lemma_first_positions(events);
    lemma_deduped_keys(events);
    assert(has_copy(kept, key::key_of(event)) == has_copy(events, key::key_of(event)));
    assert forall|copy_key: key::KeyView| #[trigger]
        tier_of_copies(all, copy_key) == if key::key_of(event) == copy_key {
            tier::merged_tier(tier_of_copies(events, copy_key), event.service_tier)
        } else {
            tier_of_copies(events, copy_key)
        } by {
        lemma_tier_push(events, event, copy_key);
    }
    if !has_copy(kept, key::key_of(event)) {
        assert(!has_copy(events, key::key_of(event)));
        assert(tier_of_copies(events, key::key_of(event)) is None);
        assert(tier_of_copies(all, key::key_of(event)) == event.service_tier) by {
            match event.service_tier {
                Some(CodexServiceTier::Standard) => {},
                Some(CodexServiceTier::Fast) => {},
                None => {},
            }
        }
        assert forall|j: int| 0 <= j < kept.len() implies #[trigger] kept[j] == kept_event(
            all,
            positions[j],
        ) by {
            assert(all[positions[j]] == events[positions[j]]);
            assert(key::key_of(kept[j]) == key::key_of(events[positions[j]]));
        }
        assert(deduped(all) =~= kept.push(event));
    }
    assert forall|j: int|
        0 <= j < kept.len() && key::key_of(#[trigger] kept[j]) == key::key_of(
            event,
        ) implies deduped(all) == kept.update(
        j,
        CodexTokenUsageEvent {
            service_tier: tier::merged_tier(kept[j].service_tier, event.service_tier),
            ..kept[j]
        },
    ) by {
        assert(has_copy(kept, key::key_of(event)));
        assert forall|k: int| 0 <= k < kept.len() implies #[trigger] kept_event(all, positions[k])
            == if k == j {
            CodexTokenUsageEvent {
                service_tier: tier::merged_tier(kept[j].service_tier, event.service_tier),
                ..kept[j]
            }
        } else {
            kept[k]
        } by {
            assert(all[positions[k]] == events[positions[k]]);
            assert(key::key_of(kept[k]) == key::key_of(events[positions[k]]));
        }
        assert(deduped(all) =~= kept.update(
            j,
            CodexTokenUsageEvent {
                service_tier: tier::merged_tier(kept[j].service_tier, event.service_tier),
                ..kept[j]
            },
        ));
    }
}

/// The position of the kept event that has the given key, if there is one.
fn find_copy(
    index: &PositionIndex,
    keys: &Vec<EventKey>,
    wanted: &EventKey,
    fingerprint: u64,
) -> (found: Option<usize>)
    requires
        index.well_formed(),
        index@.len() == keys@.len(),
        fingerprint == key::key_fingerprint(wanted@),
        forall|i: int|
            0 <= i < keys@.len() ==> #[trigger] index@[i] == key::key_fingerprint(keys@[i]@),
    ensures
        match found {
            Some(position) => position < keys@.len() && keys@[position as int]@ == wanted@,
            None => forall|i: int| 0 <= i < keys@.len() ==> (#[trigger] keys@[i])@ != wanted@,
        },
{
    let mut candidate: Option<usize> = index.latest(fingerprint);
    let ghost mut end: int = keys@.len() as int;
    loop
        invariant
            index.well_formed(),
            index@.len() == keys@.len(),
            fingerprint == key::key_fingerprint(wanted@),
            forall|i: int|
                0 <= i < keys@.len() ==> #[trigger] index@[i] == key::key_fingerprint(keys@[i]@),
            0 <= end <= keys@.len(),
            crate::index::is_last_before(index@, index.buckets(), fingerprint, end, candidate),
            forall|i: int| end <= i < keys@.len() ==> (#[trigger] keys@[i])@ != wanted@,
        decreases end,
    {
        match candidate {
            Some(position) => {
                if keys[position].same(wanted) {
                    return Some(position);
                }
                proof {
                    assert forall|i: int| position <= i < keys@.len() implies (
                    #[trigger] keys@[i])@ != wanted@ by {
                        if position < i < end {
                            assert(index@[i] != fingerprint);
                        }
                    }
                    end = position as int;
                }
                candidate = index.earlier(position);
            },
            None => {
                proof {
                    assert forall|i: int| 0 <= i < keys@.len() implies (#[trigger] keys@[i])@
                        != wanted@ by {
                        if i < end {
                            assert(index@[i] != fingerprint);
                        }
                    }
                }
                return None;
            },
        }
    }
}

/// Keeps the first copy of each event, with the tier of all its copies.
pub fn dedupe_codex_events(events: &mut Vec<CodexTokenUsageEvent>)
    ensures
        final(events)@ == deduped(old(events)@),
{
    let mut incoming: Vec<CodexTokenUsageEvent> = Vec::new();
    core::mem::swap(events, &mut incoming);
    let ghost all = incoming@;
    let mut index = PositionIndex::for_entries(incoming.len());
    let mut keys: Vec<EventKey> = Vec::with_capacity(incoming.len());
    let mut kept: Vec<CodexTokenUsageEvent> = Vec::with_capacity(incoming.len());
    for event in iter: incoming
        invariant
            iter.seq() == all,
            kept@ == deduped(all.take(iter.index())),
            index.well_formed(),
            index@.len() == keys@.len(),
            keys@.len() == kept@.len(),
            forall|i: int| 0 <= i < keys@.len() ==> (#[trigger] keys@[i])@ == key::key_of(kept@[i]),
            forall|i: int|
                0 <= i < keys@.len() ==> #[trigger] index@[i] == key::key_fingerprint(keys@[i]@),
    {
        let ghost done = all.take(iter.index());
        proof {
            assert(all.take(iter.index() + 1) =~= done.push(event));
            lemma_deduped_push(done, event);
        }
        let event_key = EventKey::of(&event);
        let fingerprint: u64 = key::fingerprint_of(&event);
        match find_copy(&index, &keys, &event_key, fingerprint) {
            Some(position) => {
                let merged = tier::merge_codex_service_tiers(
                    kept[position].service_tier,
                    event.service_tier,
                );
                kept[position].service_tier = merged;
            },
            None => {
                proof {
                    assert forall|i: int| 0 <= i < kept@.len() implies key::key_of(
                        #[trigger] kept@[i],
                    ) != key::key_of(event) by {
                        assert(keys@[i]@ != event_key@);
                    }
                }
                index.extend(fingerprint);
                keys.push(event_key);
                kept.push(event);
            },
        }
    }
    proof {
        assert(all.take(all.len() as int) =~= all);
    }
    *events = kept;
}

} // verus!

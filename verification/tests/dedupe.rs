use codex_loader::{
    dedupe_codex_events, merge_codex_service_tiers, CodexServiceTier, CodexTokenUsageEvent,
};

fn codex_event(session_id: &str) -> CodexTokenUsageEvent {
    CodexTokenUsageEvent {
        session_id: session_id.to_string(),
        timestamp: "2026-01-02T00:00:00.000Z".to_string(),
        model: Some("gpt-5".to_string()),
        input_tokens: 100,
        cached_input_tokens: 10,
        output_tokens: 50,
        reasoning_output_tokens: 0,
        total_tokens: 150,
        is_fallback_model: false,
        service_tier: None,
    }
}

fn sessions(events: &[CodexTokenUsageEvent]) -> Vec<&str> {
    events.iter().map(|event| event.session_id.as_str()).collect()
}

#[test]
fn dedupes_matching_codex_usage_events_from_distinct_sessions() {
    let mut events = vec![codex_event("session-a"), codex_event("session-b")];

    dedupe_codex_events(&mut events);

    assert_eq!(events.len(), 1);
    assert_eq!(events[0].session_id, "session-a");
}

#[test]
fn preserves_recorded_tier_when_deduping_matching_events() {
    let unclassified = codex_event("session-a");
    let mut fast = codex_event("session-b");
    fast.service_tier = Some(CodexServiceTier::Fast);

    for mut events in [
        vec![unclassified.clone(), fast.clone()],
        vec![fast.clone(), unclassified.clone()],
    ] {
        dedupe_codex_events(&mut events);

        assert_eq!(events.len(), 1);
        assert_eq!(events[0].service_tier, Some(CodexServiceTier::Fast));
    }
}

#[test]
fn resolves_conflicting_recorded_tiers_deterministically() {
    let mut standard = codex_event("session-a");
    standard.service_tier = Some(CodexServiceTier::Standard);
    let mut fast = codex_event("session-b");
    fast.service_tier = Some(CodexServiceTier::Fast);

    for mut events in [
        vec![standard.clone(), fast.clone()],
        vec![fast.clone(), standard.clone()],
    ] {
        dedupe_codex_events(&mut events);

        assert_eq!(events.len(), 1);
        assert_eq!(events[0].service_tier, Some(CodexServiceTier::Standard));
    }
}

#[test]
fn leaves_an_empty_list_empty() {
    let mut events: Vec<CodexTokenUsageEvent> = Vec::new();

    dedupe_codex_events(&mut events);

    assert!(events.is_empty());
}

/// Each part of the key tells two events apart.
#[test]
fn keeps_events_that_differ_in_any_part_of_the_key() {
    let base = codex_event("base");
    let mut later = codex_event("later");
    later.timestamp = "2026-01-02T00:00:00.001Z".to_string();
    let mut other_model = codex_event("other-model");
    other_model.model = Some("gpt-5.2".to_string());
    let mut no_model = codex_event("no-model");
    no_model.model = None;
    let mut empty_model = codex_event("empty-model");
    empty_model.model = Some(String::new());
    let mut input = codex_event("input");
    input.input_tokens = 101;
    let mut cached = codex_event("cached");
    cached.cached_input_tokens = 11;
    let mut output = codex_event("output");
    output.output_tokens = 51;
    let mut reasoning = codex_event("reasoning");
    reasoning.reasoning_output_tokens = 1;
    let mut total = codex_event("total");
    total.total_tokens = 151;
    let distinct = vec![
        base, later, other_model, no_model, empty_model, input, cached, output, reasoning, total,
    ];
    let mut events = distinct.clone();

    dedupe_codex_events(&mut events);

    assert_eq!(events, distinct);
}

/// The session and the origin of the model are no part of the key.
#[test]
fn ignores_the_session_and_the_origin_of_the_model() {
    let mut guessed = codex_event("guessed");
    guessed.is_fallback_model = true;
    let mut events = vec![guessed.clone(), codex_event("recorded")];

    dedupe_codex_events(&mut events);

    assert_eq!(events, vec![guessed]);
}

/// Texts that are too long to be kept inline are compared as well as short ones.
#[test]
fn compares_long_and_multibyte_texts() {
    let long = "a model name that is much too long to be kept inline by any means".to_string();
    let mut first = codex_event("first");
    first.model = Some(long.clone());
    let mut copy = codex_event("copy");
    copy.model = Some(long.clone());
    let mut other = codex_event("other");
    other.model = Some(long.clone() + "!");
    let mut accented = codex_event("accented");
    accented.timestamp = "2026\u{2013}01\u{2013}02".to_string();
    let mut accented_copy = codex_event("accented-copy");
    accented_copy.timestamp = "2026\u{2013}01\u{2013}02".to_string();
    let mut events = vec![first, other, accented, copy, accented_copy];

    dedupe_codex_events(&mut events);

    assert_eq!(sessions(&events), ["first", "other", "accented"]);
}

#[test]
fn keeps_first_copies_in_order() {
    let event = |session: &str, input_tokens: u64| {
        let mut event = codex_event(session);
        event.input_tokens = input_tokens;
        event
    };
    let mut events = vec![
        event("a", 3),
        event("b", 1),
        event("c", 3),
        event("d", 2),
        event("e", 1),
        event("f", 3),
    ];

    dedupe_codex_events(&mut events);

    assert_eq!(sessions(&events), ["a", "b", "d"]);
    assert_eq!(
        events.iter().map(|event| event.input_tokens).collect::<Vec<_>>(),
        [3, 1, 2]
    );
}

#[test]
fn deduping_twice_changes_nothing_more() {
    let mut fast = codex_event("fast");
    fast.service_tier = Some(CodexServiceTier::Fast);
    let mut once = vec![codex_event("a"), fast, codex_event("b")];
    dedupe_codex_events(&mut once);
    let mut twice = once.clone();

    dedupe_codex_events(&mut twice);

    assert_eq!(twice, once);
    assert_eq!(once.len(), 1);
}

#[test]
fn deduping_can_be_resumed() {
    let event = |session: &str, input_tokens: u64, tier: Option<CodexServiceTier>| {
        let mut event = codex_event(session);
        event.input_tokens = input_tokens;
        event.service_tier = tier;
        event
    };
    let head = vec![event("a", 1, None), event("b", 1, Some(CodexServiceTier::Fast))];
    let tail = vec![event("c", 2, None), event("d", 1, Some(CodexServiceTier::Standard))];
    let mut at_once: Vec<_> = head.iter().chain(&tail).cloned().collect();
    dedupe_codex_events(&mut at_once);
    let mut resumed = head;
    dedupe_codex_events(&mut resumed);
    resumed.extend(tail);
    dedupe_codex_events(&mut resumed);

    assert_eq!(resumed, at_once);
    assert_eq!(sessions(&at_once), ["a", "c"]);
    assert_eq!(at_once[0].service_tier, Some(CodexServiceTier::Standard));
}

#[test]
fn merges_the_tiers_of_many_copies_in_any_order() {
    let copy = |tier: Option<CodexServiceTier>| {
        let mut event = codex_event("copy");
        event.service_tier = tier;
        event
    };
    let standard = Some(CodexServiceTier::Standard);
    let fast = Some(CodexServiceTier::Fast);
    for tiers in [[None, fast, standard], [standard, None, fast], [fast, standard, None]] {
        let mut events: Vec<_> = tiers.into_iter().map(copy).collect();

        dedupe_codex_events(&mut events);

        assert_eq!(events.len(), 1);
        assert_eq!(events[0].service_tier, standard);
    }
}

#[test]
fn merges_each_pair_of_tiers() {
    let standard = Some(CodexServiceTier::Standard);
    let fast = Some(CodexServiceTier::Fast);

    assert_eq!(merge_codex_service_tiers(None, None), None);
    assert_eq!(merge_codex_service_tiers(None, fast), fast);
    assert_eq!(merge_codex_service_tiers(fast, None), fast);
    assert_eq!(merge_codex_service_tiers(None, standard), standard);
    assert_eq!(merge_codex_service_tiers(standard, None), standard);
    assert_eq!(merge_codex_service_tiers(fast, fast), fast);
    assert_eq!(merge_codex_service_tiers(standard, standard), standard);
    assert_eq!(merge_codex_service_tiers(standard, fast), standard);
    assert_eq!(merge_codex_service_tiers(fast, standard), standard);
}

/// Many events, most of them copies, so that fingerprints share buckets.
#[test]
fn dedupes_many_events() {
    let mut events = Vec::new();
    for round in 0..5u64 {
        for input_tokens in 0..2000u64 {
            let mut event = codex_event(&format!("session-{round}"));
            event.input_tokens = input_tokens;
            events.push(event);
        }
    }

    dedupe_codex_events(&mut events);

    assert_eq!(events.len(), 2000);
    assert!(events.iter().all(|event| event.session_id == "session-0"));
    assert!(events
        .iter()
        .enumerate()
        .all(|(index, event)| event.input_tokens == index as u64));
}

/// Deduping events before they come after others changes nothing.
#[test]
fn deduping_can_be_prepared() {
    let event = |session: &str, input_tokens: u64, tier: Option<CodexServiceTier>| {
        let mut event = codex_event(session);
        event.input_tokens = input_tokens;
        event.service_tier = tier;
        event
    };
    let events = vec![event("a", 1, None), event("b", 2, Some(CodexServiceTier::Fast))];
    let mut more = vec![
        event("c", 2, None),
        event("d", 3, None),
        event("e", 2, Some(CodexServiceTier::Standard)),
        event("f", 3, Some(CodexServiceTier::Fast)),
        event("g", 1, None),
    ];

    let mut at_once = events.clone();
    at_once.extend(more.clone());
    dedupe_codex_events(&mut at_once);
    dedupe_codex_events(&mut more);
    let mut prepared = events;
    prepared.extend(more.clone());
    dedupe_codex_events(&mut prepared);

    assert_eq!(sessions(&more), ["c", "d", "g"]);
    assert_eq!(prepared, at_once);
    assert_eq!(sessions(&prepared), ["a", "b", "d"]);
    assert_eq!(prepared[0].service_tier, None);
    assert_eq!(prepared[1].service_tier, Some(CodexServiceTier::Standard));
    assert_eq!(prepared[2].service_tier, Some(CodexServiceTier::Fast));
}

/// The order of the events matters to which copy is kept, not to how many are kept.
#[test]
fn as_many_events_are_kept_in_any_order() {
    let event = |session: &str, input_tokens: u64| {
        let mut event = codex_event(session);
        event.input_tokens = input_tokens;
        event
    };
    let mut events =
        vec![event("a", 1), event("b", 2), event("c", 1), event("d", 3), event("e", 2)];
    let mut reordered: Vec<CodexTokenUsageEvent> = events.iter().rev().cloned().collect();

    dedupe_codex_events(&mut events);
    dedupe_codex_events(&mut reordered);

    assert_eq!(sessions(&events), ["a", "b", "d"]);
    assert_eq!(sessions(&reordered), ["e", "d", "c"]);
    let tokens = |events: &[CodexTokenUsageEvent]| {
        let mut tokens: Vec<u64> = events.iter().map(|event| event.input_tokens).collect();
        tokens.sort();
        tokens
    };
    assert_eq!(tokens(&events), tokens(&reordered));
}

/// Events that come in again, as they are, change nothing.
#[test]
fn repeated_events_change_nothing() {
    let mut fast = codex_event("b");
    fast.service_tier = Some(CodexServiceTier::Fast);
    let mut other = codex_event("c");
    other.input_tokens = 7;
    let events = vec![codex_event("a"), fast.clone(), other.clone()];
    let mut once = events.clone();
    let mut repeated = events;
    repeated.extend([other, fast]);

    dedupe_codex_events(&mut once);
    dedupe_codex_events(&mut repeated);

    assert_eq!(repeated, once);
    assert_eq!(sessions(&once), ["a", "c"]);
    assert_eq!(once[0].service_tier, Some(CodexServiceTier::Fast));
}

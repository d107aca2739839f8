use std::cell::RefCell;

use codex_loader::{
    chunk_file_indexes_by_size, collect_deduped_codex_usage_files, combine_readings,
    dedupe_codex_events, load_codex_events, load_codex_events_from_directory,
    load_codex_events_from_sources, load_codex_events_inner, merge_loaded_files,
    read_codex_session_chunk, worker_count, CodexLogAccess, CodexServiceTier,
    CodexTokenUsageEvent, CodexUsageGroup, CodexUsageSource, LoadedFile, SessionFile,
    SessionVisit, SharedArgs,
};

fn usage(session_id: &str, timestamp: &str, tokens: [u64; 5]) -> CodexTokenUsageEvent {
    CodexTokenUsageEvent {
        session_id: session_id.to_string(),
        timestamp: timestamp.to_string(),
        model: Some("gpt-5.2".to_string()),
        input_tokens: tokens[0],
        cached_input_tokens: tokens[1],
        output_tokens: tokens[2],
        reasoning_output_tokens: tokens[3],
        total_tokens: tokens[4],
        is_fallback_model: false,
        service_tier: None,
    }
}

fn event(session_id: &str, input_tokens: u64) -> CodexTokenUsageEvent {
    usage(
        session_id,
        "2026-05-12T08:00:00.000Z",
        [input_tokens, 0, 0, 0, input_tokens],
    )
}

/// Why no sources were found.
#[derive(Debug, PartialEq)]
struct NoSources {
    reason: String,
}

fn no_sources() -> NoSources {
    NoSources { reason: "no home directory".to_string() }
}

/// The events of a load that cannot fail here.
fn loaded(events: Result<Vec<CodexTokenUsageEvent>, NoSources>) -> Vec<CodexTokenUsageEvent> {
    events.unwrap()
}

/// Session logs that are held in memory.
#[derive(Default)]
struct Fixture {
    logs: Vec<(String, String, SessionVisit)>,
    /// The directory, the path and the prefix of each visit.
    visits: RefCell<Vec<(String, String, u64)>>,
    /// The directories of each plan, and whether one thread was to make it.
    plans: RefCell<Vec<(Vec<String>, bool)>>,
}

impl Fixture {
    fn log(mut self, dir: &str, name: &str, events: Vec<CodexTokenUsageEvent>) -> Self {
        self.logs.push((
            dir.to_string(),
            name.to_string(),
            SessionVisit { events, completed: true },
        ));
        self
    }

    fn broken_log(mut self, dir: &str, name: &str, events: Vec<CodexTokenUsageEvent>) -> Self {
        self.logs.push((
            dir.to_string(),
            name.to_string(),
            SessionVisit { events, completed: false },
        ));
        self
    }

    fn collect_files(&self, dir: &str) -> Vec<SessionFile> {
        self.logs
            .iter()
            .filter(|(log_dir, _, _)| log_dir == dir)
            .map(|(log_dir, name, visit)| SessionFile {
                path: format!("{log_dir}/{name}"),
                relative_path: name.clone(),
                size: visit.events.len() as u64,
            })
            .collect()
    }

    fn visit(&self, dir: &str, file: &SessionFile, prefix: u64) -> SessionVisit {
        self.visits
            .borrow_mut()
            .push((dir.to_string(), file.path.clone(), prefix));
        let (_, _, visit) = self
            .logs
            .iter()
            .find(|(log_dir, name, _)| format!("{log_dir}/{name}") == file.path)
            .unwrap();
        SessionVisit {
            events: visit.events.clone(),
            completed: visit.completed,
        }
    }

    /// The workers run one after another, the last chunk first.
    fn run_workers(
        &self,
        dir: &String,
        files: &Vec<SessionFile>,
        plan: &u64,
        chunks: &Vec<Vec<usize>>,
    ) -> Vec<LoadedFile> {
        let lookup = |plan: &u64, _: &SessionFile| *plan;
        let visit = |dir: &String, file: &SessionFile, prefix: u64| self.visit(dir, file, prefix);
        let mut loaded = Vec::new();
        for chunk in chunks.iter().rev() {
            loaded.extend(read_codex_session_chunk(&lookup, &visit, dir, files, plan, chunk));
        }
        loaded
    }

    fn access(
        &self,
    ) -> CodexLogAccess<
        impl Fn(&String) -> Vec<SessionFile> + '_,
        impl Fn(&Vec<CodexUsageGroup>, bool) -> u64 + '_,
        impl Fn(&u64, &SessionFile) -> u64 + '_,
        impl Fn(&String, &SessionFile, u64) -> SessionVisit + '_,
        impl Fn(&String, &Vec<SessionFile>, &u64, &Vec<Vec<usize>>) -> Vec<LoadedFile> + '_,
    > {
        CodexLogAccess {
            collect_files: |dir: &String| self.collect_files(dir),
            plan_replay: |groups: &Vec<CodexUsageGroup>, single_thread: bool| {
                let dirs = groups.iter().map(|group| group.dir.clone()).collect();
                self.plans.borrow_mut().push((dirs, single_thread));
                groups.iter().map(|group| group.files.len() as u64).sum()
            },
            replay_prefix: |plan: &u64, _: &SessionFile| *plan,
            visit_file: |dir: &String, file: &SessionFile, prefix: u64| {
                self.visit(dir, file, prefix)
            },
            run_workers: |dir: &String,
                          files: &Vec<SessionFile>,
                          plan: &u64,
                          chunks: &Vec<Vec<usize>>| {
                self.run_workers(dir, files, plan, chunks)
            },
            available_parallelism: Some(3),
        }
    }

    fn load_directory(&self, dir: &str, single_thread: bool) -> Vec<CodexTokenUsageEvent> {
        loaded(load_codex_events_from_directory(
            &self.access(),
            &dir.to_string(),
            single_thread,
        ))
    }

    fn load_sources(
        &self,
        sources: &Vec<CodexUsageSource>,
        single_thread: bool,
    ) -> Vec<CodexTokenUsageEvent> {
        loaded(load_codex_events_from_sources(&self.access(), sources, single_thread))
    }
}

fn source(dir: &str, home: &str) -> CodexUsageSource {
    CodexUsageSource {
        dir: dir.to_string(),
        home: home.to_string(),
    }
}

fn file(name: &str, size: u64) -> SessionFile {
    SessionFile {
        path: format!("logs/{name}"),
        relative_path: name.to_string(),
        size,
    }
}

fn by_session(events: &[CodexTokenUsageEvent]) -> Vec<(&str, u64)> {
    events
        .iter()
        .map(|event| (event.session_id.as_str(), event.input_tokens))
        .collect()
}

#[test]
fn dedupes_copied_branch_history_across_session_files() {
    let parent = "2026-05-12T08-00-00-parent";
    let branch = "2026-05-12T08-02-00-branch";
    let history = |session: &str| {
        usage(session, "2026-05-12T08:01:00.000Z", [1_000, 100, 200, 20, 1_200])
    };
    let fixture = Fixture::default()
        .log("sessions", "2026-05-12T08-00-00-parent.jsonl", vec![history(parent)])
        .log(
            "sessions",
            "2026-05-12T08-02-00-branch.jsonl",
            vec![
                history(branch),
                usage(branch, "2026-05-12T08:02:00.000Z", [600, 200, 250, 20, 850]),
            ],
        );

    for single_thread in [true, false] {
        let events = fixture.load_directory("sessions", single_thread);

        assert_eq!(events.len(), 2);
        assert_eq!(events[0].session_id, "2026-05-12T08-00-00-parent");
        assert_eq!(events[0].input_tokens, 1_000);
        assert_eq!(events[0].cached_input_tokens, 100);
        assert_eq!(events[0].output_tokens, 200);
        assert_eq!(events[0].reasoning_output_tokens, 20);
        assert_eq!(events[0].total_tokens, 1_200);
        assert_eq!(events[1].session_id, "2026-05-12T08-02-00-branch");
        assert_eq!(events[1].input_tokens, 600);
        assert_eq!(events[1].cached_input_tokens, 200);
        assert_eq!(events[1].output_tokens, 250);
        assert_eq!(events[1].reasoning_output_tokens, 20);
        assert_eq!(events[1].total_tokens, 850);
    }
}

#[test]
fn loads_active_copy_when_archived_file_has_same_relative_path() {
    let fixture = Fixture::default()
        .log(
            "codex/sessions",
            "duplicate.jsonl",
            vec![usage("duplicate", "2026-05-12T08:01:00.000Z", [111, 10, 20, 1, 131])],
        )
        .log(
            "codex/archived_sessions",
            "duplicate.jsonl",
            vec![usage("duplicate", "2026-05-12T09:01:00.000Z", [999, 90, 80, 7, 1_079])],
        )
        .log(
            "codex/archived_sessions",
            "archived-only.jsonl",
            vec![usage("archived-only", "2026-05-13T08:01:00.000Z", [222, 20, 30, 2, 252])],
        );

    for single_thread in [true, false] {
        let sources = vec![
            source("codex/sessions", "codex"),
            source("codex/archived_sessions", "codex"),
        ];
        let events = fixture.load_sources(&sources, single_thread);

        assert_eq!(events.len(), 2);
        assert_eq!(events[0].session_id, "duplicate");
        assert_eq!(events[0].input_tokens, 111);
        assert_eq!(events[1].session_id, "archived-only");
        assert_eq!(events[1].input_tokens, 222);
    }
}

/// Homes do not hide one another's logs.
#[test]
fn reads_the_same_relative_path_of_different_homes() {
    let fixture = Fixture::default()
        .log("a/sessions", "run.jsonl", vec![event("a", 1)])
        .log("b/sessions", "run.jsonl", vec![event("b", 2)]);
    let sources = vec![source("a/sessions", "a"), source("b/sessions", "b")];

    for single_thread in [true, false] {
        assert_eq!(
            by_session(&fixture.load_sources(&sources, single_thread)),
            [("a", 1), ("b", 2)]
        );
    }
}

/// Copies are found across sources, and the tiers of all copies count.
#[test]
fn dedupes_across_sources() {
    let mut fast = event("b", 1);
    fast.service_tier = Some(CodexServiceTier::Fast);
    let fixture = Fixture::default()
        .log("a/sessions", "one.jsonl", vec![event("a", 1)])
        .log("b/sessions", "two.jsonl", vec![fast, event("b", 2)]);
    let sources = vec![source("a/sessions", "a"), source("b/sessions", "b")];

    let events = fixture.load_sources(&sources, true);

    assert_eq!(by_session(&events), [("a", 1), ("b", 2)]);
    assert_eq!(events[0].service_tier, Some(CodexServiceTier::Fast));
    assert_eq!(events[1].service_tier, None);
}

#[test]
fn loads_nothing_of_no_sources() {
    let fixture = Fixture::default().log("sessions", "run.jsonl", vec![event("run", 1)]);

    assert!(fixture.load_sources(&Vec::new(), true).is_empty());
    assert!(fixture.load_directory("elsewhere", false).is_empty());
}

#[test]
fn loads_a_single_source_as_a_directory() {
    let fixture = Fixture::default()
        .log("sessions", "one.jsonl", vec![event("one", 1), event("one", 2)])
        .log("sessions", "two.jsonl", vec![event("two", 2), event("two", 3)]);

    for single_thread in [true, false] {
        assert_eq!(
            fixture.load_sources(&vec![source("sessions", "home")], single_thread),
            fixture.load_directory("sessions", single_thread)
        );
    }
}

/// A visit that breaks off still counts for what it came across.
#[test]
fn keeps_what_a_broken_log_gave() {
    let fixture = Fixture::default()
        .broken_log("sessions", "broken.jsonl", vec![event("broken", 1)])
        .log("sessions", "whole.jsonl", vec![event("whole", 2)]);

    for single_thread in [true, false] {
        assert_eq!(
            by_session(&fixture.load_directory("sessions", single_thread)),
            [("broken", 1), ("whole", 2)]
        );
    }
}

/// One plan is made for all groups before any log is read, and each log is visited with it.
#[test]
fn visits_each_log_once_with_what_the_plan_has_for_it() {
    let fixture = Fixture::default()
        .log("codex/sessions", "one.jsonl", vec![event("one", 1)])
        .log("codex/archived_sessions", "one.jsonl", vec![event("hidden", 9)])
        .log("codex/archived_sessions", "two.jsonl", vec![event("two", 2)]);
    let sources = vec![
        source("codex/sessions", "codex"),
        source("codex/archived_sessions", "codex"),
    ];

    fixture.load_sources(&sources, true);

    assert_eq!(
        *fixture.plans.borrow(),
        [(
            vec!["codex/sessions".to_string(), "codex/archived_sessions".to_string()],
            true
        )]
    );
    assert_eq!(
        *fixture.visits.borrow(),
        [
            ("codex/sessions".to_string(), "codex/sessions/one.jsonl".to_string(), 2),
            (
                "codex/archived_sessions".to_string(),
                "codex/archived_sessions/two.jsonl".to_string(),
                2
            ),
        ]
    );
}

/// However the logs are shared out, the events come in the order of the logs.
#[test]
fn several_workers_load_what_one_thread_loads() {
    let mut fixture = Fixture::default();
    for log in 0..17u64 {
        let events = (0..=(log * 7) % 5)
            .map(|at| event(&format!("log-{log:02}"), log * 10 + at))
            .collect();
        fixture = fixture.log("sessions", &format!("log-{log:02}.jsonl"), events);
    }

    let in_order = fixture.load_directory("sessions", true);
    let shared = fixture.load_directory("sessions", false);

    assert_eq!(shared, in_order);
    assert_eq!(in_order[0].session_id, "log-00");
    assert_eq!(in_order[in_order.len() - 1].session_id, "log-16");
    assert_eq!(fixture.visits.borrow().len(), 34);
}

#[test]
fn reads_in_order_where_one_worker_can_run() {
    let fixture = Fixture::default()
        .log("sessions", "one.jsonl", vec![event("one", 1)])
        .log("sessions", "two.jsonl", vec![event("two", 2)]);
    for available in [None, Some(1), Some(0)] {
        let mut access = fixture.access();
        access.available_parallelism = available;
        fixture.visits.borrow_mut().clear();

        let events =
            loaded(load_codex_events_from_directory(&access, &"sessions".to_string(), false));

        assert_eq!(by_session(&events), [("one", 1), ("two", 2)]);
        assert_eq!(fixture.visits.borrow()[0].1, "sessions/one.jsonl");
        assert_eq!(fixture.visits.borrow()[1].1, "sessions/two.jsonl");
    }
}

#[test]
fn loads_the_sources_that_were_found() {
    let fixture = Fixture::default().log("sessions", "run.jsonl", vec![event("run", 1)]);
    for single_thread in [true, false] {
        let shared = SharedArgs { json: true, single_thread };

        let events = loaded(load_codex_events(
            &fixture.access(),
            Ok(vec![source("sessions", "home")]),
            &shared,
        ));

        assert_eq!(by_session(&events), [("run", 1)]);
    }
}

#[test]
fn passes_on_why_no_sources_were_found() {
    let fixture = Fixture::default().log("sessions", "run.jsonl", vec![event("run", 1)]);
    let shared = SharedArgs { json: false, single_thread: true };

    let loaded = load_codex_events(&fixture.access(), Err(no_sources()), &shared);

    assert_eq!(loaded, Err(no_sources()));
    assert!(fixture.visits.borrow().is_empty());
}

#[test]
fn combines_readings_in_order() {
    let readings = vec![
        vec![event("a", 1), event("a", 2)],
        Vec::new(),
        vec![event("b", 2), event("b", 3), event("b", 1)],
    ];

    let events = combine_readings(readings);

    assert_eq!(by_session(&events), [("a", 1), ("a", 2), ("b", 3)]);
}

#[test]
fn merges_what_workers_loaded_in_the_order_of_the_logs() {
    let loaded = vec![
        (3, vec![event("d", 4)]),
        (0, vec![event("a", 1), event("a", 2)]),
        (2, Vec::new()),
    ];

    let events = merge_loaded_files(4, loaded);

    assert_eq!(by_session(&events), [("a", 1), ("a", 2), ("d", 4)]);
}

#[test]
fn merging_keeps_what_was_loaded_last_for_a_log() {
    let loaded = vec![(0, vec![event("old", 1)]), (0, vec![event("new", 2)])];

    assert_eq!(by_session(&merge_loaded_files(1, loaded)), [("new", 2)]);
}

#[test]
fn counts_workers() {
    assert_eq!(worker_count(Some(8), 3), 3);
    assert_eq!(worker_count(Some(2), 3), 2);
    assert_eq!(worker_count(None, 3), 1);
    assert_eq!(worker_count(Some(8), 0), 0);
}

#[test]
fn shares_logs_out_by_size() {
    let files: Vec<SessionFile> = [70, 10, 20, 30, 5, 0, u64::MAX, u64::MAX]
        .into_iter()
        .enumerate()
        .map(|(index, size)| file(&format!("{index}.jsonl"), size))
        .collect();

    for workers in 1..=files.len() {
        let chunks = chunk_file_indexes_by_size(&files, workers);

        assert_eq!(chunks.len(), workers);
        let mut indexes: Vec<usize> = chunks.concat();
        indexes.sort();
        assert_eq!(indexes, (0..files.len()).collect::<Vec<_>>());
        let loads: Vec<u128> = chunks
            .iter()
            .map(|chunk| chunk.iter().map(|index| files[*index].size as u128).sum())
            .collect();
        let heaviest = loads.iter().max().unwrap();
        let lightest = loads.iter().min().unwrap();
        assert!(heaviest - lightest <= u64::MAX as u128);
    }
    assert_eq!(
        chunk_file_indexes_by_size(&vec![file("a", 70), file("b", 10), file("c", 20)], 2),
        vec![vec![0], vec![1, 2]]
    );
}

#[test]
fn leaves_out_paths_that_a_source_of_the_same_home_lists_before() {
    let sources = vec![
        source("a/sessions", "a"),
        source("b/sessions", "b"),
        source("a/archived_sessions", "a"),
    ];
    let listings = vec![
        vec![file("one", 1), file("two", 2)],
        vec![file("one", 3)],
        vec![file("two", 4), file("three", 5), file("one", 6), file("four", 7)],
    ];

    let groups = collect_deduped_codex_usage_files(&sources, listings);

    assert_eq!(
        groups,
        vec![
            CodexUsageGroup {
                dir: "a/sessions".to_string(),
                files: vec![file("one", 1), file("two", 2)],
            },
            CodexUsageGroup {
                dir: "b/sessions".to_string(),
                files: vec![file("one", 3)],
            },
            CodexUsageGroup {
                dir: "a/archived_sessions".to_string(),
                files: vec![file("three", 5), file("four", 7)],
            },
        ]
    );
}

#[test]
fn a_directory_that_is_listed_twice_is_read_once() {
    let fixture = Fixture::default().log("sessions", "run.jsonl", vec![event("run", 1)]);
    let sources = vec![source("sessions", "home"), source("sessions", "home")];

    assert_eq!(by_session(&fixture.load_sources(&sources, true)), [("run", 1)]);
    assert_eq!(fixture.visits.borrow().len(), 1);
}

#[test]
fn several_threads_load_what_one_loads_of_sources() {
    let mut fixture = Fixture::default();
    for log in 0..9u64 {
        let events = || vec![event("run", log), event("run", log % 4), event("run", 100 + log)];
        fixture = fixture
            .log("codex/sessions", &format!("{log}.jsonl"), events())
            .log("codex/archived_sessions", &format!("{}.jsonl", log + 5), events());
    }
    let sources = vec![
        source("codex/sessions", "codex"),
        source("codex/archived_sessions", "codex"),
    ];

    let in_order = fixture.load_sources(&sources, true);

    assert_eq!(fixture.load_sources(&sources, false), in_order);
    assert_eq!(in_order.len(), 18);
}

/// What an archived log holds does not matter where the active sessions have one of its path.
#[test]
fn archived_copies_do_not_change_a_load() {
    let with_copy = |copy: Vec<CodexTokenUsageEvent>| {
        Fixture::default()
            .log("codex/sessions", "one.jsonl", vec![event("active", 1)])
            .log("codex/archived_sessions", "one.jsonl", copy)
            .log("codex/archived_sessions", "two.jsonl", vec![event("two", 2)])
    };
    let sources = vec![
        source("codex/sessions", "codex"),
        source("codex/archived_sessions", "codex"),
    ];
    let without_copy = Fixture::default()
        .log("codex/sessions", "one.jsonl", vec![event("active", 1)])
        .log("codex/archived_sessions", "two.jsonl", vec![event("two", 2)]);
    let copies = [
        Vec::new(),
        vec![event("archived", 1)],
        vec![event("archived", 2), event("archived", 3)],
    ];

    for single_thread in [true, false] {
        let wanted = without_copy.load_sources(&sources, single_thread);
        assert_eq!(by_session(&wanted), [("active", 1), ("two", 2)]);
        for copy in copies.clone() {
            assert_eq!(with_copy(copy).load_sources(&sources, single_thread), wanted);
        }
    }
}

/// Two homes are loaded together as they are loaded apart.
#[test]
fn a_load_of_two_homes_holds_the_events_of_both_once() {
    let mut fast = event("b", 2);
    fast.service_tier = Some(CodexServiceTier::Fast);
    let fixture = Fixture::default()
        .log("a/sessions", "run.jsonl", vec![event("a", 1), event("a", 2)])
        .log("a/archived_sessions", "old.jsonl", vec![event("a-old", 3)])
        .log("b/sessions", "run.jsonl", vec![fast, event("b", 3), event("b", 4)]);
    let a = || vec![source("a/sessions", "a"), source("a/archived_sessions", "a")];
    let b = || vec![source("b/sessions", "b")];
    let mut both = a();
    both.extend(b());

    for single_thread in [true, false] {
        let together = fixture.load_sources(&both, single_thread);
        let mut apart = fixture.load_sources(&a(), !single_thread);
        apart.extend(fixture.load_sources(&b(), single_thread));
        assert_eq!(apart.len(), 6);
        dedupe_codex_events(&mut apart);

        assert_eq!(together, apart);
        assert_eq!(
            by_session(&together),
            [("a", 1), ("a", 2), ("a-old", 3), ("b", 4)]
        );
        assert_eq!(together[1].service_tier, Some(CodexServiceTier::Fast));
    }
}

/// Each event that is read has a copy in the load, and the load holds nothing else.
#[test]
fn a_load_holds_a_copy_of_each_event_that_is_read() {
    let fixture = Fixture::default()
        .log("sessions", "one.jsonl", vec![event("one", 5), event("one", 6)])
        .log("sessions", "two.jsonl", vec![event("two", 6), event("two", 7)]);

    for single_thread in [true, false] {
        let events = fixture.load_sources(&vec![source("sessions", "home")], single_thread);

        let mut tokens: Vec<u64> = events.iter().map(|event| event.input_tokens).collect();
        tokens.sort();
        assert_eq!(tokens, [5, 6, 7]);
    }
}

#[test]
fn the_inner_load_passes_errors_on_too() {
    let fixture = Fixture::default().log("sessions", "run.jsonl", vec![event("run", 1)]);
    let shared = SharedArgs { json: false, single_thread: false };

    assert_eq!(
        load_codex_events_inner(&fixture.access(), Err(no_sources()), &shared),
        Err(no_sources())
    );
    assert_eq!(
        loaded(load_codex_events_inner(
            &fixture.access(),
            Ok(vec![source("sessions", "home")]),
            &shared
        )),
        [event("run", 1)]
    );
}

/// A child leaves out what it replays of its parent, in whichever source the parent is.
#[test]
fn finds_the_parent_of_a_log_in_another_source() {
    let history = || vec![event("parent", 1), event("parent", 2)];
    let child = |session: &str| vec![event(session, 11), event(session, 12), event(session, 3)];
    let load = |fixture: &Fixture, sources: &Vec<CodexUsageSource>, single_thread: bool| {
        // The plan tells whether the parent is among the logs: a child then replays two events.
        let lookup = |plan: &bool, file: &SessionFile| -> usize {
            if *plan && file.relative_path == "child.jsonl" { 2 } else { 0 }
        };
        let visit = |dir: &String, file: &SessionFile, prefix: usize| {
            let mut visit = fixture.visit(dir, file, prefix as u64);
            visit.events.drain(..prefix);
            visit
        };
        let access = CodexLogAccess {
            collect_files: |dir: &String| fixture.collect_files(dir),
            plan_replay: |groups: &Vec<CodexUsageGroup>, _: bool| {
                let mut files = groups.iter().flat_map(|group| &group.files);
                files.any(|file| file.relative_path == "parent.jsonl")
            },
            replay_prefix: lookup,
            visit_file: visit,
            run_workers: |dir: &String,
                          files: &Vec<SessionFile>,
                          plan: &bool,
                          chunks: &Vec<Vec<usize>>| {
                chunks
                    .iter()
                    .rev()
                    .flat_map(|chunk| {
                        read_codex_session_chunk(&lookup, &visit, dir, files, plan, chunk)
                    })
                    .collect::<Vec<LoadedFile>>()
            },
            available_parallelism: Some(4),
        };
        loaded(load_codex_events_from_sources(&access, sources, single_thread))
    };
    let together = Fixture::default()
        .log("a/sessions", "child.jsonl", child("child"))
        .log("a/sessions", "parent.jsonl", history());
    let apart = Fixture::default()
        .log("a/sessions", "child.jsonl", child("child"))
        .log("b/sessions", "parent.jsonl", history());
    let orphan = Fixture::default().log("a/sessions", "child.jsonl", child("child"));
    let one = vec![source("a/sessions", "a")];
    let two = vec![source("a/sessions", "a"), source("b/sessions", "b")];

    for single_thread in [true, false] {
        let wanted = [("child", 3), ("parent", 1), ("parent", 2)];
        assert_eq!(by_session(&load(&together, &one, single_thread)), wanted);
        assert_eq!(by_session(&load(&apart, &two, single_thread)), wanted);
        assert_eq!(
            by_session(&load(&orphan, &two, single_thread)),
            [("child", 11), ("child", 12), ("child", 3)]
        );
    }
}

/// A log that a single source lists twice counts once, alone and among others.
#[test]
fn a_log_that_is_listed_twice_counts_once() {
    let fixture = Fixture::default()
        .log("a/sessions", "run.jsonl", vec![event("a", 1), event("a", 2)])
        .log("a/sessions", "run.jsonl", vec![event("a", 1), event("a", 2)])
        .log("b/sessions", "run.jsonl", vec![event("b", 2), event("b", 3)]);
    let a = || source("a/sessions", "a");
    let b = || source("b/sessions", "b");

    for single_thread in [true, false] {
        let alone = fixture.load_sources(&vec![a()], single_thread);
        assert_eq!(by_session(&alone), [("a", 1), ("a", 2)]);
        let mut apart = alone;
        apart.extend(fixture.load_sources(&vec![b()], single_thread));
        dedupe_codex_events(&mut apart);

        assert_eq!(fixture.load_sources(&vec![a(), b()], single_thread), apart);
        assert_eq!(by_session(&apart), [("a", 1), ("a", 2), ("b", 3)]);
    }
}

/// Workers may share the logs out in any way, and hand them back in any order.
#[test]
fn readings_of_any_chunks_in_any_order_are_merged_into_the_order_of_the_logs() {
    let fixture = Fixture::default()
        .log("sessions", "0.jsonl", vec![event("zero", 1)])
        .log("sessions", "1.jsonl", vec![event("one", 2), event("one", 3)])
        .log("sessions", "2.jsonl", Vec::new())
        .log("sessions", "3.jsonl", vec![event("three", 4)]);
    let dir = "sessions".to_string();
    let files = fixture.collect_files(&dir);
    let lookup = |plan: &u64, _: &SessionFile| *plan;
    let visit = |dir: &String, file: &SessionFile, prefix: u64| fixture.visit(dir, file, prefix);

    for chunks in [
        vec![vec![0, 1, 2, 3]],
        vec![vec![3, 1], vec![], vec![2, 0]],
        vec![vec![2], vec![3], vec![0], vec![1]],
    ] {
        let mut handed_back: Vec<LoadedFile> = Vec::new();
        for chunk in &chunks {
            let read = read_codex_session_chunk(&lookup, &visit, &dir, &files, &0, chunk);
            handed_back.splice(0..0, read);
        }

        let events = merge_loaded_files(files.len(), handed_back);

        assert_eq!(
            by_session(&events),
            [("zero", 1), ("one", 2), ("one", 3), ("three", 4)]
        );
    }
}

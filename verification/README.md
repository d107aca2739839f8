# codex_loader

Loads the token usage that Codex sessions record in their logs, as a library verified with
[Verus](https://github.com/verus-lang/verus).

A load finds the session logs of one or more sources, reads them, puts their events together and
keeps one copy of each event:

- Where the active and the archived sessions of a Codex home both have a log of one relative path,
  the active one is read.
- The logs are read one after another, or shared out by size among workers. Either way the events
  come in the order of the sources and, within a source, of its logs.
- A log that breaks off counts for what was read of it.
- Events of the same time, model and token counts are copies of one another. The first is kept; it
  gets a tier if any of its copies has one, `Standard` where they disagree.

## Layout

| Path | Content |
| --- | --- |
| `src/tier.rs`, `src/event.rs` | tiers and events |
| `src/key.rs`, `src/compact.rs` | what makes two events copies, over `compact_str` strings |
| `src/fingerprint.rs`, `src/index.rs` | finding a key in a list by its fingerprint |
| `src/dedupe.rs` | keeping first copies |
| `src/sources.rs` | which logs of which sources are read |
| `src/schedule.rs` | sharing logs out among workers |
| `src/reading.rs` | reading logs in order or by workers, and merging what workers loaded |
| `src/loader.rs` | the loads |
| `src/laws/events.rs` | laws of keeping one copy of each event |
| `src/laws/logs.rs` | laws of choosing the logs that are read |
| `src/laws/workers.rs` | laws of sharing the reading out |
| `src/laws/threads.rs` | laws of loading by one thread or by several |
| `src/laws/loads.rs` | laws of what loads hold, of one list of sources and of two |
| `src/laws/copies.rs` | laws of archived copies |
| `src/laws/plans.rs` | laws of the plan that spans all sources |
| `src/laws/lists.rs` | lemmas on lists of lists |
| `app/` | the file system and the threads around the library |

The library does not touch the file system itself: a load gets a `CodexLogAccess`, whose functions
list, plan and visit logs. Nothing is asked of what these return, but that workers hand back only
logs of those that they were given; the contracts of the loads are stated for whatever comes back.
Laws that need more of them, such as that a log is read the same way twice, say so in their premises
(`has_one_outcome`, `workers_read_their_chunks`).

Verus takes on trust, from the `compact_str` crate, that a compact string holds the text it was
made of and that two compact strings are equal if and only if their texts are (`src/compact.rs`).

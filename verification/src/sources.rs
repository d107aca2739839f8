//! Where session logs are found, and which of them are read.

use vstd::prelude::*;

use crate::fingerprint;
use crate::index;
use crate::index::PositionIndex;

verus! {

/// A directory of session logs that belongs to a Codex home.
///
/// The active sessions of a home come before its archived ones in a list of sources.
#[derive(Debug, PartialEq, Eq)]
pub struct CodexUsageSource {
    /// The directory that holds the logs.
    pub dir: String,
    /// The Codex home, or the directory itself where it belongs to none.
    pub home: String,
}

/// A session log.
#[derive(Debug, PartialEq, Eq)]
pub struct SessionFile {
    /// Where the log is.
    pub path: String,
    /// Where the log is under the directory of its source.
    pub relative_path: String,
    /// The size of the log in bytes.
    pub size: u64,
}

/// The logs of one source that are read.
#[derive(Debug, PartialEq, Eq)]
pub struct CodexUsageGroup {
    /// The directory of the source.
    pub dir: String,
    /// The logs, in the order in which the source lists them.
    pub files: Vec<SessionFile>,
}

/// A group as a mathematical value.
#[verifier::ext_equal]
pub struct GroupView {
    pub dir: Seq<char>,
    pub files: Seq<SessionFile>,
}

impl View for CodexUsageGroup {
    type V = GroupView;

    open spec fn view(&self) -> GroupView {
        GroupView { dir: self.dir@, files: self.files@ }
    }
}

/// The groups as mathematical values.
pub open spec fn group_views(groups: Seq<CodexUsageGroup>) -> Seq<GroupView> {
    groups.map_values(|group: CodexUsageGroup| group@)
}

/// Whether a source of the given home lists the given relative path, among the listings of the
/// sources before `source` and the first `count` files of `source` itself.
pub open spec fn is_listed(
    sources: Seq<CodexUsageSource>,
    listings: Seq<Vec<SessionFile>>,
    source: int,
    count: int,
    home: Seq<char>,
    relative_path: Seq<char>,
) -> bool {
    exists|at: int, file: int|
        #![trigger listings[at]@[file]]
        0 <= at <= source && 0 <= file < (if at < source {
            listings[at]@.len() as int
        } else {
            count
        }) && sources[at].home@ == home && listings[at]@[file].relative_path@ == relative_path
}

/// Of the first `count` files of `source`, those that no source of the same home listed before
/// under the same relative path.
pub open spec fn kept_files(
    sources: Seq<CodexUsageSource>,
    listings: Seq<Vec<SessionFile>>,
    source: int,
    count: int,
) -> Seq<SessionFile>
    decreases count,
{
    if count <= 0 {
        Seq::empty()
    } else {
        let before = kept_files(sources, listings, source, count - 1);
        let file = listings[source]@[count - 1];
        if is_listed(
            sources,
            listings,
            source,
            count - 1,
            sources[source].home@,
            file.relative_path@,
        ) {
            before
        } else {
            before.push(file)
        }
    }
}

/// The group of each source: its files without those that a source of the same home listed before
/// under the same relative path.
pub open spec fn deduped_groups(
    sources: Seq<CodexUsageSource>,
    listings: Seq<Vec<SessionFile>>,
) -> Seq<GroupView> {
    Seq::new(
        sources.len(),
        |source: int|
            GroupView {
                dir: sources[source].dir@,
                files: kept_files(sources, listings, source, listings[source]@.len() as int),
            },
    )
}

/// A relative path that a source of a home lists.
struct ListedPath {
    home: String,
    relative_path: String,
}

/// The fingerprint of a relative path under a home.
spec fn path_fingerprint(home: Seq<char>, relative_path: Seq<char>) -> u64 {
    fingerprint::mixed_text(
        fingerprint::mixed_text(fingerprint::FINGERPRINT_BASIS, home),
        relative_path,
    )
}

/// The paths listed so far, found by their fingerprints.
struct ListedPaths {
    paths: Vec<ListedPath>,
    index: PositionIndex,
}

impl ListedPaths {
    spec fn well_formed(&self) -> bool {
        &&& self.index.well_formed()
        &&& self.index@.len() == self.paths@.len()
        &&& forall|i: int|
            0 <= i < self.paths@.len() ==> #[trigger] self.index@[i] == path_fingerprint(
                self.paths@[i].home@,
                self.paths@[i].relative_path@,
            )
    }

    spec fn holds(&self, home: Seq<char>, relative_path: Seq<char>) -> bool {
        exists|i: int|
            0 <= i < self.paths@.len() && (#[trigger] self.paths@[i]).home@ == home
                && self.paths@[i].relative_path@ == relative_path
    }

    fn new(entries: usize) -> (listed: Self)
        ensures
            listed.well_formed(),
            forall|home: Seq<char>, relative_path: Seq<char>| !listed.holds(home, relative_path),
    {
        ListedPaths { paths: Vec::new(), index: PositionIndex::for_entries(entries) }
    }

    /// Whether a path is held.
    fn contains(&self, home: &String, relative_path: &String, wanted: u64) -> (held: bool)
        requires
            self.well_formed(),
            wanted == path_fingerprint(home@, relative_path@),
        ensures
            held == self.holds(home@, relative_path@),
    {
        let mut candidate: Option<usize> = self.index.latest(wanted);
        let ghost mut end: int = self.paths@.len() as int;
        loop
            invariant
                self.well_formed(),
                wanted == path_fingerprint(home@, relative_path@),
                0 <= end <= self.paths@.len(),
                index::is_last_before(self.index@, self.index.buckets(), wanted, end, candidate),
                forall|i: int|
                    end <= i < self.paths@.len() ==> !((#[trigger] self.paths@[i]).home@ == home@
                        && self.paths@[i].relative_path@ == relative_path@),
            decreases end,
        {
            match candidate {
                Some(position) => {
                    if self.paths[position].home == *home && self.paths[position].relative_path
                        == *relative_path {
                        return true;
                    }
                    proof {
                        assert forall|i: int| position <= i < self.paths@.len() implies !((
                        #[trigger] self.paths@[i]).home@ == home@ && self.paths@[i].relative_path@
                            == relative_path@) by {
                            if position < i < end {
                                assert(self.index@[i] != wanted);
                            }
                        }
                        end = position as int;
                    }
                    candidate = self.index.earlier(position);
                },
                None => {
                    proof {
                        assert forall|i: int| 0 <= i < self.paths@.len() implies !((
                        #[trigger] self.paths@[i]).home@ == home@ && self.paths@[i].relative_path@
                            == relative_path@) by {
                            if i < end {
                                assert(self.index@[i] != wanted);
                            }
                        }
                    }
                    return false;
                },
            }
        }
    }

    /// Adds a path, unless it is held already. Tells whether it was added.
    fn add_new(&mut self, home: &String, relative_path: &String) -> (added: bool)
        requires
            old(self).well_formed(),
        ensures
            final(self).well_formed(),
            added == !old(self).holds(home@, relative_path@),
            forall|other_home: Seq<char>, other_path: Seq<char>| #[trigger]
                final(self).holds(other_home, other_path) == (old(self).holds(
                    other_home,
                    other_path,
                ) || (other_home == home@ && other_path == relative_path@)),
    {
        let wanted: u64 = fingerprint::mix_text(
            fingerprint::mix_text(fingerprint::FINGERPRINT_BASIS, home.as_str()),
            relative_path.as_str(),
        );
        if self.contains(home, relative_path, wanted) {
            return false;
        }
        self.index.extend(wanted);
        self.paths.push(ListedPath { home: home.clone(), relative_path: relative_path.clone() });
        proof {
            let count = old(self).paths@.len() as int;
            assert(self.paths@[count].home@ == home@);
            assert forall|other_home: Seq<char>, other_path: Seq<char>| #[trigger]
                self.holds(other_home, other_path) == (old(self).holds(other_home, other_path) || (
                other_home == home@ && other_path == relative_path@)) by {
                if old(self).holds(other_home, other_path) {
                    let i = choose|i: int|
                        0 <= i < old(self).paths@.len() && (
                        #[trigger] old(self).paths@[i]).home@ == other_home
                            && old(self).paths@[i].relative_path@ == other_path;
                    assert(self.paths@[i] == old(self).paths@[i]);
                }
                if self.holds(other_home, other_path) {
                    let i = choose|i: int|
                        0 <= i < self.paths@.len() && (#[trigger] self.paths@[i]).home@
                            == other_home && self.paths@[i].relative_path@ == other_path;
                    if i < count {
                        assert(self.paths@[i] == old(self).paths@[i]);
                    }
                }
            }
        }
        true
    }
}

/// Leaves out of each listing the files that a source of the same home listed before under the
/// same relative path.
pub fn collect_deduped_codex_usage_files(
    sources: &Vec<CodexUsageSource>,
    listings: Vec<Vec<SessionFile>>,
) -> (groups: Vec<CodexUsageGroup>)
    requires
        listings@.len() == sources@.len(),
    ensures
        group_views(groups@) == deduped_groups(sources@, listings@),
{
    let ghost all = listings@;
    let mut entries: usize = 0;
    let mut counted: usize = 0;
    while counted < listings.len()
        decreases listings.len() - counted,
    {
        entries = entries.saturating_add(listings[counted].len());
        counted += 1;
    }
    let mut listed = ListedPaths::new(entries);
    let mut groups: Vec<CodexUsageGroup> = Vec::with_capacity(sources.len());
    for listing in outer: listings
        invariant
            outer.seq() == all,
            all.len() == sources@.len(),
            groups@.len() == outer.index(),
            listed.well_formed(),
            forall|home: Seq<char>, relative_path: Seq<char>| #[trigger]
                listed.holds(home, relative_path) == is_listed(
                    sources@,
                    all,
                    outer.index(),
                    0,
                    home,
                    relative_path,
                ),
            forall|i: int|
                0 <= i < groups@.len() ==> (#[trigger] groups@[i])@ == deduped_groups(
                    sources@,
                    all,
                )[i],
    {
        let ghost source = outer.index();
        let at: usize = groups.len();
        let mut files: Vec<SessionFile> = Vec::new();
        for file in inner: listing
            invariant
                inner.seq() == all[source]@,
                0 <= source < all.len(),
                at == source,
                all.len() == sources@.len(),
                listed.well_formed(),
                files@ == kept_files(sources@, all, source, inner.index()),
                forall|home: Seq<char>, relative_path: Seq<char>| #[trigger]
                    listed.holds(home, relative_path) == is_listed(
                        sources@,
                        all,
                        source,
                        inner.index(),
                        home,
                        relative_path,
                    ),
        {
            let ghost count = inner.index();
            proof {
                assert forall|home: Seq<char>, relative_path: Seq<char>| #[trigger]
                    is_listed(sources@, all, source, count + 1, home, relative_path) == (is_listed(
                        sources@,
                        all,
                        source,
                        count,
                        home,
                        relative_path,
                    ) || (home == sources@[source].home@ && relative_path
                        == all[source]@[count].relative_path@)) by {
                    lemma_listed_next(sources@, all, source, count, home, relative_path);
                }
            }
            if listed.add_new(&sources[at].home, &file.relative_path) {
                files.push(file);
            }
        }
        proof {
            let count = all[source]@.len() as int;
            assert forall|home: Seq<char>, relative_path: Seq<char>| #[trigger]
                is_listed(sources@, all, source + 1, 0, home, relative_path) == is_listed(
                    sources@,
                    all,
                    source,
                    count,
                    home,
                    relative_path,
                ) by {
                lemma_listed_next_source(sources@, all, source, home, relative_path);
            }
        }
        groups.push(CodexUsageGroup { dir: sources[at].dir.clone(), files });
    }
    proof {
        assert(group_views(groups@) =~= deduped_groups(sources@, all));
    }
    groups
}

/// What one more file of `source` adds to the listed paths.
proof fn lemma_listed_next(
    sources: Seq<CodexUsageSource>,
    listings: Seq<Vec<SessionFile>>,
    source: int,
    count: int,
    home: Seq<char>,
    relative_path: Seq<char>,
)
    requires
        0 <= source < listings.len(),
        0 <= count < listings[source]@.len(),
    ensures
        is_listed(sources, listings, source, count + 1, home, relative_path) == (is_listed(
            sources,
            listings,
            source,
            count,
            home,
            relative_path,
        ) || (home == sources[source].home@ && relative_path
            == listings[source]@[count].relative_path@)),
{
    if is_listed(sources, listings, source, count, home, relative_path) {
        let (at, file) = choose|at: int, file: int|
            #![trigger listings[at]@[file]]
            0 <= at <= source && 0 <= file < (if at < source {
                listings[at]@.len() as int
            } else {
                count
            }) && sources[at].home@ == home && listings[at]@[file].relative_path@ == relative_path;
        assert(listings[at]@[file].relative_path@ == relative_path);
    }
}

/// The end of a listing is the start of the next.
proof fn lemma_listed_next_source(
    sources: Seq<CodexUsageSource>,
    listings: Seq<Vec<SessionFile>>,
    source: int,
    home: Seq<char>,
    relative_path: Seq<char>,
)
    requires
        0 <= source < listings.len(),
    ensures
        is_listed(sources, listings, source + 1, 0, home, relative_path) == is_listed(
            sources,
            listings,
            source,
            listings[source]@.len() as int,
            home,
            relative_path,
        ),
{
}

} // verus!

//! An index that finds the entries of a list by their fingerprints.
//!
//! It is made of vectors: with `CompactString` declared in this crate, Verus takes no map of std,
//! whatever the type of its keys. The `Eq` that such maps ask of keys brings in the `Eq` of
//! `CompactString`, which stands on a `PartialEq` bounded by `AsRef`, a trait that Verus does not
//! know; its check of traits then fails.

use vstd::prelude::*;

verus! {

/// Whether two fingerprints share one of the given number of buckets.
pub open spec fn share_bucket(buckets: nat, left: u64, right: u64) -> bool {
    left as int % buckets as int == right as int % buckets as int
}

/// Whether `found` is the last of the positions before `end` whose fingerprints share a bucket
/// with the given one, or none where no position before `end` does.
pub open spec fn is_last_before(
    fingerprints: Seq<u64>,
    buckets: nat,
    fingerprint: u64,
    end: int,
    found: Option<usize>,
) -> bool {
    match found {
        Some(position) => {
            &&& position < end
            &&& share_bucket(buckets, fingerprints[position as int], fingerprint)
            &&& forall|later: int|
                position < later < end ==> !share_bucket(
                    buckets,
                    #[trigger] fingerprints[later],
                    fingerprint,
                )
        },
        None => forall|earlier: int|
            0 <= earlier < end ==> !share_bucket(
                buckets,
                #[trigger] fingerprints[earlier],
                fingerprint,
            ),
    }
}

/// Chains the positions of a growing list whose fingerprints share a bucket, from the last to the
/// first.
///
/// The index knows the entries only by their fingerprints; its view is the list of these.
pub struct PositionIndex {
    latest: Vec<Option<usize>>,
    earlier: Vec<Option<usize>>,
    fingerprints: Ghost<Seq<u64>>,
}

impl View for PositionIndex {
    type V = Seq<u64>;

    closed spec fn view(&self) -> Seq<u64> {
        self.fingerprints@
    }
}

impl PositionIndex {
    /// The number of buckets.
    pub closed spec fn buckets(&self) -> nat {
        self.latest@.len()
    }

    /// There is a bucket, each chain starts at the last position of its bucket, and each link
    /// leads to the last position before it.
    pub closed spec fn well_formed(&self) -> bool {
        &&& self.buckets() > 0
        &&& self.earlier@.len() == self@.len()
        &&& forall|fingerprint: u64|
            is_last_before(
                self@,
                self.buckets(),
                fingerprint,
                self@.len() as int,
                #[trigger] self.latest@[fingerprint as int % self.buckets() as int],
            )
        &&& forall|position: int|
            0 <= position < self@.len() ==> is_last_before(
                self@,
                self.buckets(),
                self@[position],
                position,
                #[trigger] self.earlier@[position],
            )
    }

    /// An index of the empty list, laid out for the given number of entries.
    pub fn for_entries(entries: usize) -> (index: Self)
        ensures
            index.well_formed(),
            index@ == Seq::<u64>::empty(),
    {
        let mut latest: Vec<Option<usize>> = Vec::with_capacity(entries);
        latest.push(None);
        while latest.len() < entries
            invariant
                latest@.len() > 0,
                forall|bucket: int|
                    0 <= bucket < latest@.len() ==> #[trigger] latest@[bucket] is None,
            decreases entries - latest@.len(),
        {
            latest.push(None);
        }
        PositionIndex { latest, earlier: Vec::new(), fingerprints: Ghost(Seq::empty()) }
    }

    fn bucket(&self, fingerprint: u64) -> (bucket: usize)
        requires
            self.buckets() > 0,
        ensures
            bucket == fingerprint as int % self.buckets() as int,
            bucket < self.buckets(),
    {
        (fingerprint % (self.latest.len() as u64)) as usize
    }

    /// The last position whose fingerprint shares a bucket with the given one.
    pub fn latest(&self, fingerprint: u64) -> (found: Option<usize>)
        requires
            self.well_formed(),
        ensures
            is_last_before(self@, self.buckets(), fingerprint, self@.len() as int, found),
    {
        self.latest[self.bucket(fingerprint)]
    }

    /// The last position before the given one whose fingerprint shares a bucket with its own.
    pub fn earlier(&self, position: usize) -> (found: Option<usize>)
        requires
            self.well_formed(),
            position < self@.len(),
        ensures
            is_last_before(self@, self.buckets(), self@[position as int], position as int, found),
    {
        self.earlier[position]
    }

    /// Extends the list by an entry with the given fingerprint.
    pub fn extend(&mut self, fingerprint: u64)
        requires
            old(self).well_formed(),
        ensures
            final(self).well_formed(),
            final(self)@ == old(self)@.push(fingerprint),
            final(self).buckets() == old(self).buckets(),
    {
        let ghost before = *self;
        let position: usize = self.earlier.len();
        let bucket: usize = self.bucket(fingerprint);
        let link: Option<usize> = self.latest[bucket];
        self.latest[bucket] = Some(position);
        self.earlier.push(link);
        proof {
            self.fingerprints@ = self.fingerprints@.push(fingerprint);
            assert forall|other: u64|
                is_last_before(
                    self@,
                    self.buckets(),
                    other,
                    self@.len() as int,
                    #[trigger] self.latest@[other as int % self.buckets() as int],
                ) by {
                assert(is_last_before(
                    before@,
                    before.buckets(),
                    other,
                    before@.len() as int,
                    before.latest@[other as int % before.buckets() as int],
                ));
            }
            assert forall|at: int| 0 <= at < self@.len() implies is_last_before(
                self@,
                self.buckets(),
                self@[at],
                at,
                #[trigger] self.earlier@[at],
            ) by {
                if at < before@.len() {
                    assert(is_last_before(
                        before@,
                        before.buckets(),
                        before@[at],
                        at,
                        before.earlier@[at],
                    ));
                } else {
                    assert(link == before.latest@[fingerprint as int % before.buckets() as int]);
                }
            }
        }
    }
}

} // verus!

//! Garbage collection of the files of the write-ahead log (WAL).
//!
//! A file of the log may go once everything up to a later one is compacted, it has reached a
//! certain age, and no manifest that is still in use refers to it. Files that hold data and empty
//! files, which serve as fences, lie in the same directory but are collected apart.
use crate::gc::{
    allowed_view, collect_ids, ids_of, is_older_than, older_than, passing,
    retain_allowed_by_gc_filter, Collected, GarbageCollectorDirectoryOptions,
};
use crate::store::{IdentifiedObjectMetadata, ObjectMetadata};
use crate::time::{max_elapsed_nanos, Duration, TimeDelta, Timestamp};
use vstd::prelude::*;

verus! {

/// The id of a sorted string table.
#[derive(Clone, Copy, Debug, PartialEq, Eq, Hash, Structural)]
pub enum SsTableId {
    /// One of the write-ahead log.
    Wal(u64),
    /// One that was made by compaction.
    Compacted(u128),
}

impl SsTableId {
    /// The number of a table of the write-ahead log.
    pub fn unwrap_wal_id(&self) -> (id: u64)
        requires
            *self is Wal,
        ensures
            *self == SsTableId::Wal(id),
    {
        match self {
            SsTableId::Wal(id) => *id,
            SsTableId::Compacted(_) => vstd::pervasive::unreached(),
        }
    }
}

/// Which files of the log a collector collects.
#[derive(Clone, Copy, Debug, PartialEq, Eq, Structural)]
pub enum WalGcMode {
    /// Those that hold data.
    Regular,
    /// The empty ones, which serve as fences.
    Fence,
}

impl WalGcMode {
    /// Whether a file of the size `size` is one that this mode collects.
    pub open spec fn takes(self, size: u64) -> bool {
        match self {
            WalGcMode::Regular => size > 0,
            WalGcMode::Fence => size == 0,
        }
    }

    /// Whether a file of the size `size` is one that this mode collects.
    pub fn collects(&self, size: u64) -> (b: bool)
        ensures
            b == self.takes(size),
    {
        match self {
            WalGcMode::Regular => size > 0,
            WalGcMode::Fence => size == 0,
        }
    }
}

/// Which files of the log a manifest refers to.
#[derive(Debug, PartialEq, Eq)]
pub struct WalReferences {
    pub wal_ids: Vec<u64>,
}

impl WalReferences {
    /// Whether the manifest refers to file `wal_id` of the log.
    pub fn has_wal_sst_reference(&self, wal_id: u64) -> (b: bool)
        ensures
            b == self.wal_ids@.contains(wal_id),
    {
        let mut i: usize = 0;
        while i < self.wal_ids.len()
            invariant
                i <= self.wal_ids@.len(),
                forall|j: int| 0 <= j < i ==> self.wal_ids@[j] != wal_id,
            decreases self.wal_ids@.len() - i,
        {
            if self.wal_ids[i] == wal_id {
                return true;
            }
            i = i + 1;
        }
        false
    }
}

/// Whether one of `manifests` refers to file `wal_id` of the log.
pub open spec fn referenced(manifests: Seq<WalReferences>, wal_id: u64) -> bool {
    exists|i: int| 0 <= i < manifests.len() && (#[trigger] manifests[i]).wal_ids@.contains(wal_id)
}

/// Whether the file `wal_sst` is older than `min_age` nanoseconds at `now` and none of `manifests`
/// refers to it.
pub open spec fn eligible(
    now: Timestamp,
    wal_sst: IdentifiedObjectMetadata<SsTableId>,
    min_age: int,
    manifests: Seq<WalReferences>,
) -> bool {
    older_than(now, wal_sst.metadata, min_age) && !referenced(manifests, wal_sst.id->Wal_0)
}

/// Which files are garbage at `now` for a collector with the mode `mode`: those with an id below
/// `last_compacted` that the mode takes and that are eligible.
pub open spec fn wal_garbage(
    mode: WalGcMode,
    last_compacted: u64,
    now: Timestamp,
    min_age: int,
    manifests: Seq<WalReferences>,
) -> spec_fn(IdentifiedObjectMetadata<SsTableId>) -> bool {
    |file: IdentifiedObjectMetadata<SsTableId>|
        file.id->Wal_0 < last_compacted && mode.takes(file.metadata.size) && eligible(
            now,
            file,
            min_age,
            manifests,
        )
}

/// A collector of files of the write-ahead log.
#[derive(Clone, Copy, Debug)]
pub struct WalGcTask {
    pub wal_options: GarbageCollectorDirectoryOptions,
    pub mode: WalGcMode,
}

/// A sweep that waits for a listing: the id below which everything is compacted.
#[derive(Clone, Copy, Debug, PartialEq, Eq, Structural)]
pub struct PendingWalListing {
    last_compacted_wal_sst_id: u64,
}

impl View for PendingWalListing {
    type V = u64;

    closed spec fn view(&self) -> u64 {
        self.last_compacted_wal_sst_id
    }
}

/// The files that a sweep has found to be garbage.
#[derive(Debug, PartialEq, Eq)]
pub struct WalSelection {
    files: Vec<IdentifiedObjectMetadata<SsTableId>>,
}

impl View for WalSelection {
    type V = Seq<IdentifiedObjectMetadata<SsTableId>>;

    closed spec fn view(&self) -> Seq<IdentifiedObjectMetadata<SsTableId>> {
        self.files@
    }
}

impl WalSelection {
    /// The files.
    pub fn files(&self) -> (files: &Vec<IdentifiedObjectMetadata<SsTableId>>)
        ensures
            files@ == self@,
    {
        &self.files
    }
}

/// A sweep that waits for deletions: how many files it found, and which of them it deletes.
#[derive(Debug, PartialEq, Eq)]
pub struct PendingWalDeletion {
    found: usize,
    ids: Vec<SsTableId>,
}

/// A `PendingWalDeletion` by its contents.
pub struct PendingWalDeletionView {
    pub found: int,
    pub ids: Seq<SsTableId>,
}

impl View for PendingWalDeletion {
    type V = PendingWalDeletionView;

    closed spec fn view(&self) -> PendingWalDeletionView {
        PendingWalDeletionView { found: self.found as int, ids: self.ids@ }
    }
}

impl PendingWalDeletion {
    /// How many files were found.
    pub fn found(&self) -> (found: usize)
        ensures
            found == self@.found,
    {
        self.found
    }

    /// The ids of the files that are to be deleted.
    pub fn ids(&self) -> (ids: &Vec<SsTableId>)
        ensures
            ids@ == self@.ids,
    {
        &self.ids
    }
}

/// What a sweep does next.
#[derive(Debug, PartialEq, Eq)]
pub enum WalStep<E> {
    /// It takes a listing, or one that was cached.
    List { list_cache_ttl: Option<Duration>, pending: PendingWalListing },
    /// It asks the filter which of the files may go.
    Filter { pending: WalSelection },
    /// It deletes the files that `pending` names, one after the other. Those that are `skipped`
    /// were found too, but stay.
    Delete { skipped: Vec<SsTableId>, pending: PendingWalDeletion },
    /// It is done.
    Done(Result<WalCollected, E>),
}

/// The outcome of a sweep, and by how much each of the collectors' counters goes up.
#[derive(Debug, PartialEq, Eq)]
pub struct WalCollected {
    pub collected: Collected<SsTableId>,
    pub gc_wal_count: usize,
    pub gc_wal_fence_count: usize,
}

/// Those of `ids` whose deletion succeeded, where `outcomes` has the outcome of each.
pub open spec fn deleted_ids<E>(
    ids: Seq<SsTableId>,
    outcomes: Seq<Result<(), E>>,
) -> Seq<SsTableId>
    decreases ids.len(),
{
    if ids.len() == 0 {
        Seq::empty()
    } else {
        let front = deleted_ids(ids.drop_last(), outcomes);
        if outcomes[ids.len() - 1] is Ok {
            front.push(ids.last())
        } else {
            front
        }
    }
}

impl WalGcTask {
    /// The collector with these options and this mode.
    pub fn new(wal_options: GarbageCollectorDirectoryOptions, mode: WalGcMode) -> (task: Self)
        ensures
            task.wal_options == wal_options,
            task.mode == mode,
    {
        WalGcTask { wal_options, mode }
    }

    /// Whether the file `wal_sst` is older than `min_age` at `utc_now` and none of the manifests
    /// in use refers to it.
    pub fn is_wal_sst_eligible_for_deletion(
        utc_now: &Timestamp,
        wal_sst: &IdentifiedObjectMetadata<SsTableId>,
        min_age: &TimeDelta,
        active_manifests: &Vec<WalReferences>,
    ) -> (b: bool)
        requires
            wal_sst.id is Wal,
        ensures
            b == eligible(*utc_now, *wal_sst, min_age@, active_manifests@),
    {
        if !is_older_than(*utc_now, &wal_sst.metadata, min_age) {
            return false;
        }
        let wal_sst_id: u64 = wal_sst.id.unwrap_wal_id();
        let mut i: usize = 0;
        while i < active_manifests.len()
            invariant
                i <= active_manifests@.len(),
                wal_sst.id == SsTableId::Wal(wal_sst_id),
                forall|j: int|
                    0 <= j < i ==> !(#[trigger] active_manifests@[j]).wal_ids@.contains(wal_sst_id),
            decreases active_manifests@.len() - i,
        {
            if active_manifests[i].has_wal_sst_reference(wal_sst_id) {
                return false;
            }
            i = i + 1;
        }
        true
    }

    /// The age that files must exceed.
    pub fn wal_sst_min_age(&self) -> (min_age: TimeDelta)
        requires
            self.wal_options.min_age@ <= max_elapsed_nanos(),
        ensures
            min_age@ == self.wal_options.min_age@,
    {
        self.wal_options.min_age_delta()
    }

    /// What this collector collects.
    pub fn resource(&self) -> (name: &str)
        ensures
            name@ == match self.mode {
                WalGcMode::Regular => "WAL"@,
                WalGcMode::Fence => "WAL fence"@,
            },
    {
        match self.mode {
            WalGcMode::Regular => "WAL",
            WalGcMode::Fence => "WAL fence",
        }
    }

    /// Starts a sweep, once the latest manifest and those that it refers to were read:
    /// `replay_after_wal_id` is the id in the latest one after which the log is replayed.
    pub fn collect<E>(&self, replay_after_wal_id: Result<u64, E>) -> (step: WalStep<E>)
        ensures
            match replay_after_wal_id {
                Err(e) => step == WalStep::<E>::Done(Err(e)),
                Ok(id) => step matches WalStep::List { list_cache_ttl, pending } && list_cache_ttl
                    == self.wal_options.list_cache_ttl && pending@ == id,
            },
    {
        match replay_after_wal_id {
            Err(e) => WalStep::Done(Err(e)),
            Ok(id) => WalStep::List {
                list_cache_ttl: self.wal_options.list_cache_ttl,
                pending: PendingWalListing { last_compacted_wal_sst_id: id },
            },
        }
    }

    /// Goes on with a sweep at `utc_now`, after the listing: selects the files that are garbage.
    pub fn collect_on_list<E>(
        &self,
        pending: PendingWalListing,
        utc_now: Timestamp,
        listing: Result<Vec<IdentifiedObjectMetadata<SsTableId>>, E>,
        active_manifests: &Vec<WalReferences>,
    ) -> (step: WalStep<E>)
        requires
            self.wal_options.min_age@ <= max_elapsed_nanos(),
            listing matches Ok(listing) ==> forall|i: int|
                0 <= i < listing@.len() ==> (#[trigger] listing@[i]).id is Wal,
        ensures
            match listing {
                Err(e) => step == WalStep::<E>::Done(Err(e)),
                Ok(listing) => step matches WalStep::Filter { pending: next } && next@
                    == listing@.filter(
                    wal_garbage(
                        self.mode,
                        pending@,
                        utc_now,
                        self.wal_options.min_age@,
                        active_manifests@,
                    ),
                ),
            },
    {
        let min_age: TimeDelta = self.wal_sst_min_age();
        let listing: Vec<IdentifiedObjectMetadata<SsTableId>> = match listing {
            Ok(listing) => listing,
            Err(e) => {
                return WalStep::Done(Err(e));
            },
        };
        let ghost unneeded = wal_garbage(
            self.mode,
            pending.last_compacted_wal_sst_id,
            utc_now,
            min_age@,
            active_manifests@,
        );
        let mut files: Vec<IdentifiedObjectMetadata<SsTableId>> = Vec::new();
        let mut i: usize = 0;
        assert(listing@.take(0).filter(unneeded) == files@) by {
            reveal(Seq::filter);
        }
        while i < listing.len()
            invariant
                i <= listing@.len(),
                forall|j: int| 0 <= j < listing@.len() ==> (#[trigger] listing@[j]).id is Wal,
                unneeded == wal_garbage(
                    self.mode,
                    pending.last_compacted_wal_sst_id,
                    utc_now,
                    min_age@,
                    active_manifests@,
                ),
                files@ == listing@.take(i as int).filter(unneeded),
            decreases listing@.len() - i,
        {
            let file: &IdentifiedObjectMetadata<SsTableId> = &listing[i];
            proof {
                assert(listing@.take(i + 1) == listing@.take(i as int).push(listing@[i as int]));
                listing@.take(i as int).lemma_filter_push(listing@[i as int], unneeded);
            }
            if file.id.unwrap_wal_id() < pending.last_compacted_wal_sst_id && self.mode.collects(
                file.metadata.size,
            ) && Self::is_wal_sst_eligible_for_deletion(
                &utc_now,
                file,
                &min_age,
                active_manifests,
            ) {
                files.push(file.duplicate());
            }
            i = i + 1;
        }
        assert(listing@.take(i as int) == listing@);
        WalStep::Filter { pending: WalSelection { files } }
    }

    /// Goes on with a sweep once the filter has given back what may go of the files that were
    /// found; `allowed` is none where there is no filter. In a dry run nothing is deleted.
    pub fn collect_on_filter<E>(
        &self,
        pending: WalSelection,
        allowed: Option<Vec<ObjectMetadata>>,
    ) -> (step: WalStep<E>)
        ensures
            ({
                let kept = ids_of(pending@.filter(passing(allowed_view(allowed))));
                &&& step matches WalStep::Delete { skipped, pending: next }
                &&& next@.found == kept.len()
                &&& if self.wal_options.dry_run {
                    skipped@ == kept && next@.ids.len() == 0
                } else {
                    skipped@.len() == 0 && next@.ids == kept
                }
            }),
    {
        let kept: Vec<IdentifiedObjectMetadata<SsTableId>> = retain_allowed_by_gc_filter(
            &pending.files,
            &allowed,
        );
        let found: usize = kept.len();
        let kept_ids: Vec<SsTableId> = collect_ids(&kept);
        if self.wal_options.dry_run {
            let pending = PendingWalDeletion { found, ids: Vec::new() };
            WalStep::Delete { skipped: kept_ids, pending }
        } else {
            let pending = PendingWalDeletion { found, ids: kept_ids };
            WalStep::Delete { skipped: Vec::new(), pending }
        }
    }

    /// Ends a sweep, once the deletions are done, whether or not they succeeded. The files that
    /// were deleted leave a cached listing, and count for the mode.
    pub fn collect_on_delete<E>(
        &self,
        pending: PendingWalDeletion,
        outcomes: &Vec<Result<(), E>>,
    ) -> (step: WalStep<E>)
        requires
            outcomes@.len() == pending@.ids.len(),
        ensures
            ({
                let deleted = deleted_ids(pending@.ids, outcomes@);
                &&& step matches WalStep::Done(Ok(done))
                &&& done.collected.found == pending@.found
                &&& done.collected.deleted == deleted.len()
                &&& done.collected.forget@ == deleted
                &&& match self.mode {
                    WalGcMode::Regular => done.gc_wal_count == deleted.len()
                        && done.gc_wal_fence_count == 0,
                    WalGcMode::Fence => done.gc_wal_count == 0 && done.gc_wal_fence_count
                        == deleted.len(),
                }
            }),
    {
        let mut forget: Vec<SsTableId> = Vec::new();
        let mut i: usize = 0;
        while i < outcomes.len()
            invariant
                i <= outcomes@.len(),
                outcomes@.len() == pending.ids@.len(),
                forget@ == deleted_ids(pending.ids@.take(i as int), outcomes@),
            decreases outcomes@.len() - i,
        {
            assert(pending.ids@.take(i + 1).drop_last() == pending.ids@.take(i as int));
            if outcomes[i].is_ok() {
                forget.push(pending.ids[i]);
            }
            i = i + 1;
        }
        assert(pending.ids@.take(i as int) == pending.ids@);
        let deleted: usize = forget.len();
        let (gc_wal_count, gc_wal_fence_count): (usize, usize) = match self.mode {
            WalGcMode::Regular => (deleted, 0),
            WalGcMode::Fence => (0, deleted),
        };
        WalStep::Done(
            Ok(
                WalCollected {
                    collected: Collected { found: pending.found, deleted, forget },
                    gc_wal_count,
                    gc_wal_fence_count,
                },
            ),
        )
    }
}

} // verus!

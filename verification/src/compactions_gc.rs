//! Garbage collection of the files that hold the compactor's state.
//!
//! Each file is a version of that state, and only the latest one is needed. So every older one
//! may go, once it has reached a certain age. Before any file goes, the boundary is moved up to
//! the greatest id that goes, so that no writer who is behind can bring such an id back.
use crate::gc::{
    allowed_view, collect_ids, count_successes, ids_of, is_older_than, older_than, passing,
    refresh_floor, retain_allowed_by_gc_filter, succeeded, Collected,
    GarbageCollectorDirectoryOptions,
};
use crate::store::{IdentifiedObjectMetadata, ObjectMetadata};
use crate::time::{max_duration_nanos, max_elapsed_nanos, Duration, TimeDelta, Timestamp};
use vstd::prelude::*;

verus! {

/// A collector of compactions files.
#[derive(Clone, Copy, Debug)]
pub struct CompactionsGcTask {
    pub compactions_options: GarbageCollectorDirectoryOptions,
    pub boundary_files_enabled: bool,
}

/// A sweep that waits for a listing: the latest version, which must stay.
#[derive(Clone, Copy, Debug, PartialEq, Eq, Structural)]
pub struct PendingListing {
    latest: u64,
}

impl View for PendingListing {
    type V = u64;

    closed spec fn view(&self) -> u64 {
        self.latest
    }
}

/// The files that a sweep has found to be garbage, and for which the boundary has yet to be moved.
#[derive(Debug, PartialEq, Eq)]
pub struct Selection {
    files: Vec<IdentifiedObjectMetadata<u64>>,
}

impl View for Selection {
    type V = Seq<IdentifiedObjectMetadata<u64>>;

    closed spec fn view(&self) -> Seq<IdentifiedObjectMetadata<u64>> {
        self.files@
    }
}

/// The files that a sweep has found to be garbage, once the boundary covers them. It is made only
/// where moving the boundary has succeeded, and only such files are ever deleted.
#[derive(Debug, PartialEq, Eq)]
pub struct CoveredSelection {
    files: Vec<IdentifiedObjectMetadata<u64>>,
}

impl View for CoveredSelection {
    type V = Seq<IdentifiedObjectMetadata<u64>>;

    closed spec fn view(&self) -> Seq<IdentifiedObjectMetadata<u64>> {
        self.files@
    }
}

impl CoveredSelection {
    /// The files.
    pub fn files(&self) -> (files: &Vec<IdentifiedObjectMetadata<u64>>)
        ensures
            files@ == self@,
    {
        &self.files
    }
}

/// The files that a sweep is about to delete, or only found where it deletes none.
#[derive(Debug, PartialEq, Eq)]
pub struct PendingDeletion {
    ids: Vec<u64>,
}

impl View for PendingDeletion {
    type V = Seq<u64>;

    closed spec fn view(&self) -> Seq<u64> {
        self.ids@
    }
}

impl PendingDeletion {
    /// The ids of the files.
    pub fn ids(&self) -> (ids: &Vec<u64>)
        ensures
            ids@ == self@,
    {
        &self.ids
    }
}

/// What a sweep does next.
#[derive(Debug, PartialEq, Eq)]
pub enum CompactionsStep<E> {
    /// It takes a listing, or one that was cached.
    List {
        list_cache_ttl: Option<Duration>,
        refresh_floor: Duration,
        pending: PendingListing,
    },
    /// It notes whether it found garbage, and moves the boundary, where there is one to move to.
    Sweep { found_garbage: bool, boundary: Option<u64>, pending: Selection },
    /// It asks the filter which of the files may go.
    Filter { pending: CoveredSelection },
    /// It deletes the files with these ids.
    Delete { ids: Vec<u64>, pending: PendingDeletion },
    /// It is done.
    Done(Result<Collected<u64>, E>),
}

/// Which files are garbage at `now`: those of versions before `latest` that are older than
/// `min_age` nanoseconds.
pub open spec fn garbage(now: Timestamp, latest: u64, min_age: int) -> spec_fn(
    IdentifiedObjectMetadata<u64>,
) -> bool {
    |file: IdentifiedObjectMetadata<u64>|
        file.id < latest && older_than(now, file.metadata, min_age)
}

/// The greatest of `ids`; none where there are none.
pub open spec fn greatest(ids: Seq<u64>) -> Option<u64>
    decreases ids.len(),
{
    if ids.len() == 0 {
        None
    } else {
        match greatest(ids.drop_last()) {
            Some(id) if id > ids.last() => Some(id),
            _ => Some(ids.last()),
        }
    }
}

/// The greatest of `ids` is one of them, and none of them is greater.
pub proof fn lemma_greatest(ids: Seq<u64>)
    ensures
        greatest(ids) is None <==> ids.len() == 0,
        greatest(ids) is Some ==> ids.contains(greatest(ids)->0),
        forall|i: int| 0 <= i < ids.len() ==> #[trigger] ids[i] <= greatest(ids)->0,
    decreases ids.len(),
{
    if ids.len() > 0 {
        let front = ids.drop_last();
        lemma_greatest(front);
        assert(ids[ids.len() - 1] == ids.last());
        if greatest(front) is Some {
            let i = choose|i: int| 0 <= i < front.len() && front[i] == greatest(front)->0;
            assert(ids[i] == front[i]);
        }
        assert forall|i: int| 0 <= i < ids.len() implies #[trigger] ids[i] <= greatest(ids)->0 by {
            if i < front.len() {
                assert(ids[i] == front[i]);
            }
        }
    }
}

impl CompactionsGcTask {
    /// The collector with these options. With `boundary_files_enabled`, it moves the boundary
    /// before it deletes.
    pub fn new(
        compactions_options: GarbageCollectorDirectoryOptions,
        boundary_files_enabled: bool,
    ) -> (task: Self)
        ensures
            task.compactions_options == compactions_options,
            task.boundary_files_enabled == boundary_files_enabled,
    {
        CompactionsGcTask { compactions_options, boundary_files_enabled }
    }

    /// The age that files must exceed.
    pub fn compactions_min_age(&self) -> (min_age: TimeDelta)
        requires
            self.compactions_options.min_age@ <= max_elapsed_nanos(),
        ensures
            min_age@ == self.compactions_options.min_age@,
    {
        self.compactions_options.min_age_delta()
    }

    /// What this collector collects.
    pub fn resource(&self) -> (name: &str)
        ensures
            name@ == "Compactions"@,
    {
        "Compactions"
    }

    /// Starts a sweep, once the id of the latest version was read. Where there is none, there is
    /// nothing to judge by, and the sweep is over.
    pub fn collect<E>(
        &self,
        latest: Result<Option<u64>, E>,
        default_interval: Duration,
    ) -> (step: CompactionsStep<E>)
        requires
            latest is Ok && latest->Ok_0 is Some ==> 2 * self.compactions_options.interval_or(
                default_interval,
            ) <= max_duration_nanos(),
        ensures
            match latest {
                Err(e) => step == CompactionsStep::<E>::Done(Err(e)),
                Ok(None) => step matches CompactionsStep::Done(Ok(done)) && done.found == 0
                    && done.deleted == 0 && done.forget@.len() == 0,
                Ok(Some(id)) => {
                    &&& step matches CompactionsStep::List {
                        list_cache_ttl,
                        refresh_floor: floor,
                        pending,
                    }
                    &&& list_cache_ttl == self.compactions_options.list_cache_ttl
                    &&& floor@ == refresh_floor(
                        self.compactions_options.interval_or(default_interval),
                    )
                    &&& pending@ == id
                },
            },
    {
        match latest {
            Err(e) => CompactionsStep::Done(Err(e)),
            Ok(None) => CompactionsStep::Done(
                Ok(Collected { found: 0, deleted: 0, forget: Vec::new() }),
            ),
            Ok(Some(id)) => CompactionsStep::List {
                list_cache_ttl: self.compactions_options.list_cache_ttl,
                refresh_floor: self.compactions_options.refresh_floor(default_interval),
                pending: PendingListing { latest: id },
            },
        }
    }

    /// Goes on with a sweep at `utc_now`, after the listing: selects the files that are garbage,
    /// and the boundary that they call for.
    pub fn collect_on_list<E>(
        &self,
        pending: PendingListing,
        utc_now: Timestamp,
        listing: Result<Vec<IdentifiedObjectMetadata<u64>>, E>,
    ) -> (step: CompactionsStep<E>)
        requires
            self.compactions_options.min_age@ <= max_elapsed_nanos(),
        ensures
            match listing {
                Err(e) => step == CompactionsStep::<E>::Done(Err(e)),
                Ok(listing) => {
                    let min_age = self.compactions_options.min_age@;
                    let selected = listing@.filter(garbage(utc_now, pending@, min_age));
                    &&& step matches CompactionsStep::Sweep {
                        found_garbage,
                        boundary,
                        pending: next,
                    }
                    &&& next@ == selected
                    &&& found_garbage == (selected.len() > 0)
                    &&& boundary == if self.boundary_files_enabled {
                        greatest(ids_of(selected))
                    } else {
                        None
                    }
                },
            },
    {
        let min_age: TimeDelta = self.compactions_min_age();
        let listing: Vec<IdentifiedObjectMetadata<u64>> = match listing {
            Ok(listing) => listing,
            Err(e) => {
                return CompactionsStep::Done(Err(e));
            },
        };
        let ghost old_enough = garbage(utc_now, pending.latest, min_age@);
        let mut files: Vec<IdentifiedObjectMetadata<u64>> = Vec::new();
        let mut greatest_id: Option<u64> = None;
        let mut i: usize = 0;
        assert(listing@.take(0).filter(old_enough) == files@) by {
            reveal(Seq::filter);
        }
        assert(ids_of(files@) == Seq::<u64>::empty());
        while i < listing.len()
            invariant
                i <= listing@.len(),
                old_enough == garbage(utc_now, pending.latest, min_age@),
                files@ == listing@.take(i as int).filter(old_enough),
                greatest_id == greatest(ids_of(files@)),
            decreases listing@.len() - i,
        {
            let file: &IdentifiedObjectMetadata<u64> = &listing[i];
            proof {
                assert(listing@.take(i + 1) == listing@.take(i as int).push(listing@[i as int]));
                listing@.take(i as int).lemma_filter_push(listing@[i as int], old_enough);
            }
            if file.id < pending.latest && is_older_than(utc_now, &file.metadata, &min_age) {
                let ghost before = files@;
                files.push(file.duplicate());
                assert(ids_of(files@).drop_last() == ids_of(before));
                assert(ids_of(files@).last() == file.id);
                greatest_id = match greatest_id {
                    Some(id) => if id > file.id {
                        Some(id)
                    } else {
                        Some(file.id)
                    },
                    None => Some(file.id),
                };
            }
            i = i + 1;
        }
        assert(listing@.take(i as int) == listing@);
        let boundary: Option<u64> = if self.boundary_files_enabled {
            greatest_id
        } else {
            None
        };
        CompactionsStep::Sweep {
            found_garbage: files.len() > 0,
            boundary,
            pending: Selection { files },
        }
    }

    /// Goes on with a sweep once the boundary was moved, or needed not be.
    pub fn collect_on_boundary<E>(&self, pending: Selection, advanced: Result<(), E>) -> (step:
        CompactionsStep<E>)
        ensures
            match advanced {
                Err(e) => step == CompactionsStep::<E>::Done(Err(e)),
                Ok(_) => step matches CompactionsStep::Filter { pending: next } && next@
                    == pending@,
            },
    {
        match advanced {
            Err(e) => CompactionsStep::Done(Err(e)),
            Ok(_) => CompactionsStep::Filter {
                pending: CoveredSelection { files: pending.files },
            },
        }
    }

    /// Goes on with a sweep once the filter has given back what may go of the files that were
    /// found; `allowed` is none where there is no filter.
    pub fn collect_on_filter<E>(
        &self,
        pending: CoveredSelection,
        allowed: Option<Vec<ObjectMetadata>>,
    ) -> (step: CompactionsStep<E>)
        ensures
            ({
                let kept = ids_of(pending@.filter(passing(allowed_view(allowed))));
                &&& step matches CompactionsStep::Delete { ids, pending: next }
                &&& next@ == kept
                &&& ids@ == if self.compactions_options.dry_run {
                    Seq::empty()
                } else {
                    kept
                }
            }),
    {
        let kept: Vec<IdentifiedObjectMetadata<u64>> = retain_allowed_by_gc_filter(
            &pending.files,
            &allowed,
        );
        let ids: Vec<u64> = collect_ids(&kept);
        CompactionsStep::Delete {
            ids: self.maybe_delete_compactions(collect_ids(&kept)),
            pending: PendingDeletion { ids },
        }
    }

    /// Which of the files with the ids `compactions_ids` are to be deleted: none in a dry run.
    pub fn maybe_delete_compactions(&self, compactions_ids: Vec<u64>) -> (ids: Vec<u64>)
        ensures
            ids@ == if self.compactions_options.dry_run {
                Seq::empty()
            } else {
                compactions_ids@
            },
    {
        if self.compactions_options.dry_run {
            Vec::new()
        } else {
            compactions_ids
        }
    }

    /// Ends a sweep, once the deletions are done, whether or not they succeeded. All files that
    /// were found leave a cached listing, and a file that is still there comes back with the next
    /// one.
    pub fn collect_on_delete<E>(&self, pending: PendingDeletion, outcomes: &Vec<Result<(), E>>) -> (
        step: CompactionsStep<E>)
        ensures
            step matches CompactionsStep::Done(Ok(done)) && done.found == pending@.len()
                && done.deleted == outcomes@.filter(succeeded()).len() && done.forget@ == pending@,
    {
        let found: usize = pending.ids.len();
        let deleted: usize = count_successes(outcomes);
        CompactionsStep::Done(Ok(Collected { found, deleted, forget: pending.ids }))
    }
}

} // verus!

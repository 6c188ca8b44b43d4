//! What the garbage collectors share: their options, which files are old enough, and the filter
//! that has the last word.
use crate::store::{IdentifiedObjectMetadata, ObjectMetadata};
use crate::time::{
    max_duration_nanos, max_elapsed_nanos, nanos_between, signed_duration_since,
    time_delta_from_std, Duration, TimeDelta, Timestamp, NANOS_PER_SEC,
};
use vstd::prelude::*;

verus! {

/// The shortest time, in seconds, after which a cached listing may be taken anew.
pub const MIN_REFRESH_SECS: u64 = 60;

/// How the files of one directory are collected.
#[derive(Clone, Copy, Debug, PartialEq, Eq, Structural)]
pub struct GarbageCollectorDirectoryOptions {
    /// The time between two sweeps.
    pub interval: Option<Duration>,
    /// How old a file must be to be deleted.
    pub min_age: Duration,
    /// Whether files are only looked for, and none is deleted.
    pub dry_run: bool,
    /// The longest time between two sweeps.
    pub max_interval: Option<Duration>,
    /// For how long a listing may be used again.
    pub list_cache_ttl: Option<Duration>,
}

impl GarbageCollectorDirectoryOptions {
    /// The age that files must exceed.
    pub fn min_age_delta(&self) -> (delta: TimeDelta)
        requires
            self.min_age@ <= max_elapsed_nanos(),
        ensures
            delta@ == self.min_age@,
    {
        match time_delta_from_std(self.min_age) {
            Some(delta) => delta,
            None => vstd::pervasive::unreached(),
        }
    }

    /// The time between two sweeps, in nanoseconds.
    pub open spec fn interval_or(self, default_interval: Duration) -> int {
        match self.interval {
            Some(interval) => interval@,
            None => default_interval@,
        }
    }

    /// The time after which a cached listing may be taken anew: that of two sweeps, and no less
    /// than a minute.
    pub fn refresh_floor(&self, default_interval: Duration) -> (floor: Duration)
        requires
            2 * self.interval_or(default_interval) <= max_duration_nanos(),
        ensures
            floor@ == refresh_floor(self.interval_or(default_interval)),
    {
        let interval: Duration = match self.interval {
            Some(interval) => interval,
            None => default_interval,
        };
        interval.doubled().max(Duration::from_secs(MIN_REFRESH_SECS))
    }
}

/// The time after which a listing that is cached for sweeps every `interval` nanoseconds may be
/// taken anew.
pub open spec fn refresh_floor(interval: int) -> int {
    if 2 * interval >= MIN_REFRESH_SECS * NANOS_PER_SEC {
        2 * interval
    } else {
        MIN_REFRESH_SECS * NANOS_PER_SEC
    }
}

/// Whether the object is older than `min_age` nanoseconds at `now`.
pub open spec fn older_than(now: Timestamp, object: ObjectMetadata, min_age: int) -> bool {
    nanos_between(now@, object.last_modified@) > min_age
}

/// Whether the object is older than `min_age` at `now`.
pub fn is_older_than(now: Timestamp, object: &ObjectMetadata, min_age: &TimeDelta) -> (b: bool)
    ensures
        b == older_than(now, *object, min_age@),
{
    signed_duration_since(now, object.last_modified).exceeds(min_age)
}

/// Whether one of `objects` says the same as `object`.
pub open spec fn among(objects: Seq<ObjectMetadata>, object: ObjectMetadata) -> bool {
    exists|i: int| 0 <= i < objects.len() && object.same(#[trigger] objects[i])
}

/// Whether a filter that lets `allowed` pass lets `object` pass; where there is no filter, every
/// object passes.
pub open spec fn passes(allowed: Option<Seq<ObjectMetadata>>, object: ObjectMetadata) -> bool {
    match allowed {
        Some(objects) => among(objects, object),
        None => true,
    }
}

/// Which files a filter that lets `allowed` pass lets pass.
pub open spec fn passing<Id>(allowed: Option<Seq<ObjectMetadata>>) -> spec_fn(
    IdentifiedObjectMetadata<Id>,
) -> bool {
    |file: IdentifiedObjectMetadata<Id>| passes(allowed, file.metadata)
}

/// What a filter lets pass, by its contents.
pub open spec fn allowed_view(allowed: Option<Vec<ObjectMetadata>>) -> Option<
    Seq<ObjectMetadata>,
> {
    match allowed {
        Some(allowed) => Some(allowed@),
        None => None,
    }
}

/// Whether one of `allowed` says the same as `object`.
fn is_allowed(object: &ObjectMetadata, allowed: &Vec<ObjectMetadata>) -> (b: bool)
    ensures
        b == among(allowed@, *object),
{
    let mut i: usize = 0;
    while i < allowed.len()
        invariant
            i <= allowed@.len(),
            forall|j: int| 0 <= j < i ==> !object.same(#[trigger] allowed@[j]),
        decreases allowed@.len() - i,
    {
        if object.is_same(&allowed[i]) {
            return true;
        }
        i = i + 1;
    }
    false
}

/// The candidates that the filter lets pass, in their order. `allowed` is what the filter gave back
/// for them; none where there is no filter.
pub fn retain_allowed_by_gc_filter<Id: Copy>(
    candidates: &Vec<IdentifiedObjectMetadata<Id>>,
    allowed: &Option<Vec<ObjectMetadata>>,
) -> (retained: Vec<IdentifiedObjectMetadata<Id>>)
    ensures
        retained@ == candidates@.filter(passing(allowed_view(*allowed))),
{
    let ghost pass = passing::<Id>(allowed_view(*allowed));
    let mut retained: Vec<IdentifiedObjectMetadata<Id>> = Vec::new();
    let mut i: usize = 0;
    assert(candidates@.take(0).filter(pass) == retained@) by {
        reveal(Seq::filter);
    }
    while i < candidates.len()
        invariant
            i <= candidates@.len(),
            pass == passing::<Id>(allowed_view(*allowed)),
            retained@ == candidates@.take(i as int).filter(pass),
        decreases candidates@.len() - i,
    {
        let keep: bool = match allowed {
            Some(allowed) => is_allowed(&candidates[i].metadata, allowed),
            None => true,
        };
        proof {
            let before = candidates@.take(i as int);
            assert(candidates@.take(i + 1) == before.push(candidates@[i as int]));
            before.lemma_filter_push(candidates@[i as int], pass);
        }
        if keep {
            retained.push(candidates[i].duplicate());
        }
        i = i + 1;
    }
    assert(candidates@.take(i as int) == candidates@);
    retained
}

/// The ids of `files`, in their order.
pub open spec fn ids_of<Id>(files: Seq<IdentifiedObjectMetadata<Id>>) -> Seq<Id> {
    files.map_values(|file: IdentifiedObjectMetadata<Id>| file.id)
}

/// The ids of `files`, in their order.
pub fn collect_ids<Id: Copy>(files: &Vec<IdentifiedObjectMetadata<Id>>) -> (ids: Vec<Id>)
    ensures
        ids@ == ids_of(files@),
{
    let mut ids: Vec<Id> = Vec::new();
    let mut i: usize = 0;
    while i < files.len()
        invariant
            i <= files@.len(),
            ids@ == ids_of(files@.take(i as int)),
        decreases files@.len() - i,
    {
        ids.push(files[i].id);
        assert(ids@ == ids_of(files@.take(i + 1)));
        i = i + 1;
    }
    assert(files@.take(i as int) == files@);
    ids
}

/// The outcome of a sweep.
#[derive(Debug, PartialEq, Eq)]
pub struct Collected<Id> {
    /// How many files were found to be garbage and let pass by the filter.
    pub found: usize,
    /// How many of them were deleted.
    pub deleted: usize,
    /// Which ids leave a cached listing.
    pub forget: Vec<Id>,
}

/// Which deletions succeeded.
pub open spec fn succeeded<E>() -> spec_fn(Result<(), E>) -> bool {
    |outcome: Result<(), E>| outcome is Ok
}

/// How many of `outcomes` are successes.
pub fn count_successes<E>(outcomes: &Vec<Result<(), E>>) -> (count: usize)
    ensures
        count == outcomes@.filter(succeeded()).len(),
{
    let mut count: usize = 0;
    let mut i: usize = 0;
    assert(outcomes@.take(0).filter(succeeded()).len() == 0) by {
        reveal(Seq::filter);
    }
    while i < outcomes.len()
        invariant
            i <= outcomes@.len(),
            count == outcomes@.take(i as int).filter(succeeded()).len(),
            count <= i,
        decreases outcomes@.len() - i,
    {
        proof {
            assert(outcomes@.take(i + 1) == outcomes@.take(i as int).push(outcomes@[i as int]));
            outcomes@.take(i as int).lemma_filter_push(outcomes@[i as int], succeeded());
        }
        if outcomes[i].is_ok() {
            count = count + 1;
        }
        i = i + 1;
    }
    assert(outcomes@.take(i as int) == outcomes@);
    count
}

} // verus!

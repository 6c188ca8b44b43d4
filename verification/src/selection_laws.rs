//! Which files a listing gives and the garbage collectors select, file by file.
use crate::compactions_gc::garbage;
use crate::gc::{
    ids_of, older_than, passing, refresh_floor, succeeded, GarbageCollectorDirectoryOptions,
};
use crate::id::{in_range, IdBound, MonotonicId};
use crate::listing::{has_id, identified, is_stable_sort};
use crate::naming::parsed_id;
use crate::store::{IdentifiedObjectMetadata, ObjectMetadata};
use crate::time::{
    max_duration_nanos, max_elapsed_nanos, nanos_between, Duration, TimeDelta, Timestamp,
    TimestampView, NANOS_PER_SEC,
};
use crate::wal_gc::{
    deleted_ids, eligible, referenced, wal_garbage, SsTableId, WalGcMode, WalReferences,
};
use vstd::prelude::*;

verus! {

/// The files of one id that a listing gives, before they are sorted.
proof fn lemma_identified_of_one_id(
    listing: Seq<ObjectMetadata>,
    suffix: Seq<char>,
    from: IdBound,
    to: IdBound,
    id: u64,
)
    ensures
        ({
            let files = identified(listing, suffix, from, to).filter(has_id(id));
            let named = listing.filter(
                |object: ObjectMetadata| parsed_id(object.location@, suffix) == Some(id),
            );
            &&& in_range(from, to, id) ==> files.map_values(
                |file: IdentifiedObjectMetadata<MonotonicId>| file.metadata,
            ) == named
            &&& !in_range(from, to, id) ==> files.len() == 0
        }),
    decreases listing.len(),
{
    reveal(Seq::filter);
    let pred = |object: ObjectMetadata| parsed_id(object.location@, suffix) == Some(id);
    let data = |file: IdentifiedObjectMetadata<MonotonicId>| file.metadata;
    let all = identified(listing, suffix, from, to);
    if listing.len() == 0 {
        assert(all.filter(has_id(id)).map_values(data) == listing.filter(pred));
    } else {
        let front = listing.drop_last();
        let last = listing.last();
        let rest = identified(front, suffix, from, to);
        lemma_identified_of_one_id(front, suffix, from, to, id);
        match parsed_id(last.location@, suffix) {
            Some(found) => {
                if in_range(from, to, found) {
                    let file = IdentifiedObjectMetadata {
                        id: MonotonicId { id: found },
                        metadata: last,
                    };
                    rest.lemma_filter_push(file, has_id(id));
                }
            },
            None => {},
        }
        assert(listing == front.push(last));
        front.lemma_filter_push(last, pred);
        if in_range(from, to, id) {
            assert(all.filter(has_id(id)).map_values(data) =~= listing.filter(pred));
        }
    }
}

/// What a listing gives: the files come in the order of their ids. Those of one id in the range
/// are, one for one and in the order of the listing, the objects whose names give that id, each
/// with all that the listing says of it; of an id outside the range there are none.
pub proof fn lemma_listed_files(
    files: Seq<IdentifiedObjectMetadata<MonotonicId>>,
    listing: Seq<ObjectMetadata>,
    suffix: Seq<char>,
    from: IdBound,
    to: IdBound,
    id: u64,
)
    requires
        is_stable_sort(files, identified(listing, suffix, from, to)),
    ensures
        forall|i: int, j: int|
            0 <= i <= j < files.len() ==> (#[trigger] files[i]).id.id <= (
            #[trigger] files[j]).id.id,
        ({
            let of_id = files.filter(
                |file: IdentifiedObjectMetadata<MonotonicId>| file.id.id == id,
            );
            let named = listing.filter(
                |object: ObjectMetadata| parsed_id(object.location@, suffix) == Some(id),
            );
            &&& in_range(from, to, id) ==> of_id.map_values(
                |file: IdentifiedObjectMetadata<MonotonicId>| file.metadata,
            ) == named
            &&& !in_range(from, to, id) ==> of_id.len() == 0
        }),
{
    let same = |file: IdentifiedObjectMetadata<MonotonicId>| file.id.id == id;
    assert(has_id(id) =~= same);
    assert(files.filter(has_id(id)) == identified(listing, suffix, from, to).filter(has_id(id)));
    lemma_identified_of_one_id(listing, suffix, from, to, id);
}

/// Each file that a listing gives is an object of the listing, with all that the listing says of
/// it, and has the id that the object's name gives.
pub proof fn lemma_listed_file_is_an_object(
    files: Seq<IdentifiedObjectMetadata<MonotonicId>>,
    listing: Seq<ObjectMetadata>,
    suffix: Seq<char>,
    from: IdBound,
    to: IdBound,
    i: int,
) -> (j: int)
    requires
        is_stable_sort(files, identified(listing, suffix, from, to)),
        0 <= i < files.len(),
    ensures
        0 <= j < listing.len(),
        files[i].metadata == listing[j],
        parsed_id(listing[j].location@, suffix) == Some(files[i].id.id),
        in_range(from, to, files[i].id.id),
{
    let id = files[i].id.id;
    let same = |file: IdentifiedObjectMetadata<MonotonicId>| file.id.id == id;
    let pred = |object: ObjectMetadata| parsed_id(object.location@, suffix) == Some(id);
    let data = |file: IdentifiedObjectMetadata<MonotonicId>| file.metadata;
    lemma_listed_files(files, listing, suffix, from, to, id);
    files.lemma_filter_contains(same, i);
    let k = choose|k: int| 0 <= k < files.filter(same).len() && files.filter(same)[k] == files[i];
    assert(in_range(from, to, id));
    let named = listing.filter(pred);
    assert(files.filter(same).map_values(data)[k] == files[i].metadata);
    assert(named[k] == files[i].metadata);
    listing.lemma_filter_pred(pred, k);
    assert(named.contains(named[k]));
    listing.lemma_filter_contains_rev(pred, named[k]);
    choose|j: int| 0 <= j < listing.len() && listing[j] == named[k]
}

/// Each object of a listing whose name gives an id in the range is among the files that the listing
/// gives.
pub proof fn lemma_object_is_listed(
    files: Seq<IdentifiedObjectMetadata<MonotonicId>>,
    listing: Seq<ObjectMetadata>,
    suffix: Seq<char>,
    from: IdBound,
    to: IdBound,
    j: int,
    id: u64,
) -> (i: int)
    requires
        is_stable_sort(files, identified(listing, suffix, from, to)),
        0 <= j < listing.len(),
        parsed_id(listing[j].location@, suffix) == Some(id),
        in_range(from, to, id),
    ensures
        0 <= i < files.len(),
        files[i].metadata == listing[j],
        files[i].id.id == id,
{
    let same = |file: IdentifiedObjectMetadata<MonotonicId>| file.id.id == id;
    let pred = |object: ObjectMetadata| parsed_id(object.location@, suffix) == Some(id);
    let data = |file: IdentifiedObjectMetadata<MonotonicId>| file.metadata;
    lemma_listed_files(files, listing, suffix, from, to, id);
    listing.lemma_filter_contains(pred, j);
    let named = listing.filter(pred);
    let k = choose|k: int| 0 <= k < named.len() && named[k] == listing[j];
    let of_id = files.filter(same);
    assert(of_id.map_values(data)[k] == listing[j]);
    assert(of_id[k].metadata == listing[j]);
    files.lemma_filter_pred(same, k);
    assert(of_id.contains(of_id[k]));
    files.lemma_filter_contains_rev(same, of_id[k]);
    choose|i: int| 0 <= i < files.len() && files[i] == of_id[k]
}

/// Where neither point in time lies in a leap second, the time between them is their difference in
/// nanoseconds. It has the other sign the other way round, and none passes between equal points.
pub proof fn lemma_time_between(now: TimestampView, earlier: TimestampView)
    ensures
        now.nanos < 1_000_000_000 && earlier.nanos < 1_000_000_000 ==> nanos_between(now, earlier)
            == (now.secs * 1_000_000_000 + now.nanos) - (earlier.secs * 1_000_000_000
            + earlier.nanos),
        nanos_between(earlier, now) == -nanos_between(now, earlier),
        nanos_between(now, now) == 0,
{
}

/// The compactions files that are garbage are, in the order of the listing, those of versions
/// before the latest whose age in nanoseconds exceeds the minimum age, and no others.
pub proof fn lemma_compactions_garbage(
    listing: Seq<IdentifiedObjectMetadata<u64>>,
    now: Timestamp,
    latest: u64,
    min_age: int,
)
    ensures
        listing.filter(garbage(now, latest, min_age)) == listing.filter(
            |file: IdentifiedObjectMetadata<u64>|
                file.id < latest && nanos_between(now@, file.metadata.last_modified@) > min_age,
        ),
        forall|i: int|
            0 <= i < listing.len() ==> {
                let file = #[trigger] listing[i];
                listing.filter(garbage(now, latest, min_age)).contains(file) <==> file.id < latest
                    && nanos_between(now@, file.metadata.last_modified@) > min_age
            },
{
    let direct = |file: IdentifiedObjectMetadata<u64>|
        file.id < latest && nanos_between(now@, file.metadata.last_modified@) > min_age;
    let model = garbage(now, latest, min_age);
    assert(model =~= direct);
    assert forall|i: int| 0 <= i < listing.len() implies {
        let file = #[trigger] listing[i];
        listing.filter(model).contains(file) <==> direct(file)
    } by {
        let file = listing[i];
        if direct(file) {
            listing.lemma_filter_contains(model, i);
        }
        if listing.filter(model).contains(file) {
            let k = choose|k: int|
                0 <= k < listing.filter(model).len() && listing.filter(model)[k] == file;
            listing.lemma_filter_pred(model, k);
        }
    }
}

/// A file is older than a minimum age where the nanoseconds since it was modified exceed it.
pub proof fn lemma_older_than(now: Timestamp, object: ObjectMetadata, min_age: int)
    ensures
        older_than(now, object, min_age) <==> nanos_between(now@, object.last_modified@) > min_age,
{
}

/// The files of the log that are garbage are, in the order of the listing, those with an id below
/// the one after which the log is replayed, that hold data for the one mode and none for the other,
/// whose age in nanoseconds exceeds the minimum age, and whose id is in no manifest, and no others.
pub proof fn lemma_wal_garbage(
    listing: Seq<IdentifiedObjectMetadata<SsTableId>>,
    mode: WalGcMode,
    last_compacted: u64,
    now: Timestamp,
    min_age: int,
    manifests: Seq<WalReferences>,
)
    ensures
        ({
            let selected = listing.filter(
                wal_garbage(mode, last_compacted, now, min_age, manifests),
            );
            &&& selected == listing.filter(
                |file: IdentifiedObjectMetadata<SsTableId>|
                    {
                        &&& file.id->Wal_0 < last_compacted
                        &&& (mode == WalGcMode::Regular && file.metadata.size > 0) || (mode
                            == WalGcMode::Fence && file.metadata.size == 0)
                        &&& nanos_between(now@, file.metadata.last_modified@) > min_age
                        &&& forall|m: int|
                            0 <= m < manifests.len() ==> !(
                            #[trigger] manifests[m]).wal_ids@.contains(file.id->Wal_0)
                    },
            )
            // No manifest loses a file that it refers to.
            &&& forall|m: int, r: int, k: int|
                0 <= m < manifests.len() && 0 <= r < manifests[m].wal_ids@.len() && 0 <= k
                    < selected.len() ==> (#[trigger] selected[k]).id->Wal_0
                    != #[trigger] manifests[m].wal_ids@[r]
            // What nothing speaks for is selected.
            &&& forall|i: int|
                0 <= i < listing.len() && (#[trigger] listing[i]).id->Wal_0 < last_compacted && (
                listing[i].metadata.size > 0 <==> mode == WalGcMode::Regular) && nanos_between(
                    now@,
                    listing[i].metadata.last_modified@,
                ) > min_age && (forall|m: int|
                    0 <= m < manifests.len() ==> !(#[trigger] manifests[m]).wal_ids@.contains(
                        listing[i].id->Wal_0,
                    )) ==> selected.contains(listing[i])
        }),
{
    let model = wal_garbage(mode, last_compacted, now, min_age, manifests);
    let selected = listing.filter(model);
    let direct = |file: IdentifiedObjectMetadata<SsTableId>|
        {
            &&& file.id->Wal_0 < last_compacted
            &&& (mode == WalGcMode::Regular && file.metadata.size > 0) || (mode == WalGcMode::Fence
                && file.metadata.size == 0)
            &&& nanos_between(now@, file.metadata.last_modified@) > min_age
            &&& forall|m: int|
                0 <= m < manifests.len() ==> !(#[trigger] manifests[m]).wal_ids@.contains(
                    file.id->Wal_0,
                )
        };
    assert forall|file: IdentifiedObjectMetadata<SsTableId>| #[trigger]
        model(file) == direct(file) by {}
    assert(model =~= direct);
    assert forall|m: int, r: int, k: int|
        0 <= m < manifests.len() && 0 <= r < manifests[m].wal_ids@.len() && 0 <= k
            < selected.len() implies (#[trigger] selected[k]).id->Wal_0
        != #[trigger] manifests[m].wal_ids@[r] by {
        listing.lemma_filter_pred(model, k);
        assert(direct(selected[k]));
        assert(manifests[m].wal_ids@.contains(manifests[m].wal_ids@[r]));
    }
    assert forall|i: int|
        0 <= i < listing.len() && (#[trigger] listing[i]).id->Wal_0 < last_compacted && (
        listing[i].metadata.size > 0 <==> mode == WalGcMode::Regular) && nanos_between(
            now@,
            listing[i].metadata.last_modified@,
        ) > min_age && (forall|m: int|
            0 <= m < manifests.len() ==> !(#[trigger] manifests[m]).wal_ids@.contains(
                listing[i].id->Wal_0,
            )) implies selected.contains(listing[i]) by {
        assert(direct(listing[i]));
        listing.lemma_filter_contains(model, i);
    }
}

/// A file of the log may go where its age in nanoseconds exceeds the minimum age and its id is in
/// no manifest.
pub proof fn lemma_eligible(
    now: Timestamp,
    file: IdentifiedObjectMetadata<SsTableId>,
    min_age: int,
    manifests: Seq<WalReferences>,
)
    ensures
        eligible(now, file, min_age, manifests) <==> nanos_between(
            now@,
            file.metadata.last_modified@,
        ) > min_age && (forall|m: int, r: int|
            0 <= m < manifests.len() && 0 <= r < manifests[m].wal_ids@.len()
                ==> #[trigger] manifests[m].wal_ids@[r] != file.id->Wal_0),
{
    let id = file.id->Wal_0;
    if referenced(manifests, id) {
        let m = choose|m: int|
            0 <= m < manifests.len() && (#[trigger] manifests[m]).wal_ids@.contains(id);
        let r = choose|r: int|
            0 <= r < manifests[m].wal_ids@.len() && manifests[m].wal_ids@[r] == id;
        assert(manifests[m].wal_ids@[r] == id);
    } else {
        assert forall|m: int, r: int|
            0 <= m < manifests.len() && 0 <= r
                < manifests[m].wal_ids@.len() implies #[trigger] manifests[m].wal_ids@[r]
            != id by {
            if manifests[m].wal_ids@[r] == id {
                assert(manifests[m].wal_ids@.contains(id));
            }
        }
    }
}

/// The filter lets those candidates pass, in their order, of which it gave back the location, the
/// time of modification and the size; without a filter, all of them.
pub proof fn lemma_filter_lets_pass<Id>(
    candidates: Seq<IdentifiedObjectMetadata<Id>>,
    allowed: Seq<ObjectMetadata>,
)
    ensures
        candidates.filter(passing(None)) == candidates,
        candidates.filter(passing(Some(allowed))) == candidates.filter(
            |file: IdentifiedObjectMetadata<Id>|
                exists|i: int|
                    0 <= i < allowed.len() && (#[trigger] allowed[i]).location@
                        == file.metadata.location@ && allowed[i].last_modified
                        == file.metadata.last_modified && allowed[i].size == file.metadata.size,
        ),
    decreases candidates.len(),
{
    reveal(Seq::filter);
    let direct = |file: IdentifiedObjectMetadata<Id>|
        exists|i: int|
            0 <= i < allowed.len() && (#[trigger] allowed[i]).location@ == file.metadata.location@
                && allowed[i].last_modified == file.metadata.last_modified && allowed[i].size
                == file.metadata.size;
    let model = passing::<Id>(Some(allowed));
    assert forall|file: IdentifiedObjectMetadata<Id>| #[trigger] model(file) == direct(file) by {
        if model(file) {
            let i = choose|i: int|
                0 <= i < allowed.len() && file.metadata.same(#[trigger] allowed[i]);
            assert(allowed[i].size == file.metadata.size);
        }
        if direct(file) {
            let i = choose|i: int|
                0 <= i < allowed.len() && (#[trigger] allowed[i]).location@
                    == file.metadata.location@ && allowed[i].last_modified
                    == file.metadata.last_modified && allowed[i].size == file.metadata.size;
            assert(file.metadata.same(allowed[i]));
        }
    }
    assert(model =~= direct);
    if candidates.len() > 0 {
        let front = candidates.drop_last();
        lemma_filter_lets_pass(front, allowed);
        front.lemma_filter_push(candidates.last(), passing::<Id>(None));
        assert(candidates == front.push(candidates.last()));
    } else {
        assert(candidates.filter(passing::<Id>(None)) == candidates);
    }
}

/// The ids of files, one for one.
pub proof fn lemma_ids_of<Id>(files: Seq<IdentifiedObjectMetadata<Id>>)
    ensures
        ids_of(files).len() == files.len(),
        forall|i: int| 0 <= i < files.len() ==> #[trigger] ids_of(files)[i] == files[i].id,
{
}

/// A deletion more counts as a success where it succeeded, and no deletion is none.
pub proof fn lemma_successes_are_counted<E>(outcomes: Seq<Result<(), E>>, outcome: Result<(), E>)
    ensures
        Seq::<Result<(), E>>::empty().filter(succeeded()).len() == 0,
        outcomes.push(outcome).filter(succeeded()).len() == outcomes.filter(succeeded()).len() + if
            outcome is Ok {
            1int
        } else {
            0int
        },
{
    reveal(Seq::filter);
    outcomes.lemma_filter_push(outcome, succeeded());
}

/// A file of the log more is counted as deleted where its deletion succeeded.
pub proof fn lemma_deletions_are_counted<E>(
    ids: Seq<SsTableId>,
    outcomes: Seq<Result<(), E>>,
    id: SsTableId,
    outcome: Result<(), E>,
)
    requires
        ids.len() == outcomes.len(),
    ensures
        deleted_ids(Seq::<SsTableId>::empty(), outcomes).len() == 0,
        outcome is Ok ==> deleted_ids(ids.push(id), outcomes.push(outcome)) == deleted_ids(
            ids,
            outcomes,
        ).push(id),
        outcome is Err ==> deleted_ids(ids.push(id), outcomes.push(outcome)) == deleted_ids(
            ids,
            outcomes,
        ),
{
    lemma_later_outcomes_do_not_matter(ids, outcomes, outcomes.push(outcome));
    assert(ids.push(id).drop_last() == ids);
}

proof fn lemma_later_outcomes_do_not_matter<E>(
    ids: Seq<SsTableId>,
    outcomes: Seq<Result<(), E>>,
    more: Seq<Result<(), E>>,
)
    requires
        ids.len() <= outcomes.len() <= more.len(),
        forall|i: int| 0 <= i < outcomes.len() ==> #[trigger] more[i] == outcomes[i],
    ensures
        deleted_ids(ids, outcomes) == deleted_ids(ids, more),
    decreases ids.len(),
{
    if ids.len() > 0 {
        lemma_later_outcomes_do_not_matter(ids.drop_last(), outcomes, more);
        assert(more[ids.len() - 1] == outcomes[ids.len() - 1]);
    }
}

/// Two descriptions of objects say the same where the location, the time of modification and the
/// size are the same.
pub proof fn lemma_same_object(a: ObjectMetadata, b: ObjectMetadata)
    ensures
        a.same(b) <==> a.location@ == b.location@ && a.last_modified == b.last_modified && a.size
            == b.size,
{
}

/// The one mode takes the files that hold data, the other one the empty files.
pub proof fn lemma_modes_take(size: u64)
    ensures
        WalGcMode::Regular.takes(size) <==> size > 0,
        WalGcMode::Fence.takes(size) <==> size == 0,
{
}

/// A length of time is its seconds in nanoseconds and the nanoseconds past them.
pub proof fn lemma_time_delta(delta: TimeDelta)
    ensures
        delta@ == delta.secs * 1_000_000_000 + delta.nanos,
        NANOS_PER_SEC == 1_000_000_000,
{
}

/// Which points in time there are, and how long the longest lengths of time are.
pub proof fn lemma_limits_of_time(at: TimestampView)
    ensures
        at.valid() <==> -8_334_601_228_800 <= at.secs <= 8_210_266_876_799 && 0 <= at.nanos && (
        at.nanos < 1_000_000_000 || (at.nanos < 2_000_000_000 && at.secs % 60 == 59)),
        max_elapsed_nanos() == 9_223_372_036_854_775_807_000_000,
        max_duration_nanos() == 18_446_744_073_709_551_615_999_999_999,
{
}

/// The time between two sweeps is the one that was set, and otherwise the default.
pub proof fn lemma_interval(
    options: GarbageCollectorDirectoryOptions,
    set: Duration,
    default_interval: Duration,
)
    ensures
        options.interval == Some(set) ==> options.interval_or(default_interval) == set@,
        options.interval is None ==> options.interval_or(default_interval) == default_interval@,
{
}

/// A cached listing may be taken anew after two sweeps, and never before a minute is over.
pub proof fn lemma_refresh_floor(interval: int)
    ensures
        refresh_floor(interval) >= 2 * interval,
        refresh_floor(interval) >= 60_000_000_000,
        refresh_floor(interval) == 2 * interval || refresh_floor(interval) == 60_000_000_000,
{
}

} // verus!

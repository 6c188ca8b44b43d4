//! What holds of the garbage collectors: what they never delete, and what stays readable.
use crate::boundary::checked;
use crate::compactions_gc::{garbage, greatest, lemma_greatest};
use crate::error::TransactionalObjectError;
use crate::gc::{among, ids_of, older_than, passes, passing};
use crate::latest::{read_start, ProtocolView, PROBE_LIMIT};
use crate::naming::{lemma_paths_differ, readable_suffix};
use crate::read_laws::{lemma_read_finds_newest, run_read, World};
use crate::store::{IdentifiedObjectMetadata, ObjectMetadata};
use crate::time::Timestamp;
use crate::wal_gc::{
    deleted_ids, eligible, referenced, wal_garbage, SsTableId, WalGcMode, WalReferences,
};
use vstd::prelude::*;

verus! {

/// Whatever passes two filters is in the sequence, and both hold of it.
proof fn lemma_filtered_twice<A>(
    s: Seq<A>,
    first: spec_fn(A) -> bool,
    second: spec_fn(A) -> bool,
    elem: A,
)
    requires
        s.filter(first).filter(second).contains(elem),
    ensures
        s.contains(elem),
        first(elem),
        second(elem),
        s.filter(first).contains(elem),
{
    let once = s.filter(first);
    let twice = once.filter(second);
    let i = choose|i: int| 0 <= i < twice.len() && twice[i] == elem;
    once.lemma_filter_pred(second, i);
    once.lemma_filter_contains_rev(second, elem);
    let j = choose|j: int| 0 <= j < once.len() && once[j] == elem;
    s.lemma_filter_pred(first, j);
    s.lemma_filter_contains_rev(first, elem);
}

/// The files that a sweep of compactions files may delete.
pub open spec fn swept(
    listing: Seq<IdentifiedObjectMetadata<u64>>,
    now: Timestamp,
    latest: u64,
    min_age: int,
    allowed: Option<Seq<ObjectMetadata>>,
) -> Seq<IdentifiedObjectMetadata<u64>> {
    listing.filter(garbage(now, latest, min_age)).filter(passing(allowed))
}

/// A sweep of compactions files deletes only files that were listed, come before the latest
/// version, are older than the minimum age and may go by the filter.
pub proof fn lemma_sweep_deletes_only_garbage(
    listing: Seq<IdentifiedObjectMetadata<u64>>,
    now: Timestamp,
    latest: u64,
    min_age: int,
    allowed: Option<Seq<ObjectMetadata>>,
    id: u64,
)
    requires
        ids_of(swept(listing, now, latest, min_age, allowed)).contains(id),
    ensures
        id < latest,
        exists|i: int|
            {
                &&& 0 <= i < listing.len()
                &&& (#[trigger] listing[i]).id == id
                &&& older_than(now, listing[i].metadata, min_age)
                &&& passes(allowed, listing[i].metadata)
            },
{
    let files = swept(listing, now, latest, min_age, allowed);
    let k = choose|k: int| 0 <= k < ids_of(files).len() && ids_of(files)[k] == id;
    assert(files.contains(files[k]));
    lemma_filtered_twice(
        listing,
        garbage(now, latest, min_age),
        passing(allowed),
        files[k],
    );
    let i = choose|i: int| 0 <= i < listing.len() && listing[i] == files[k];
    assert(listing[i].id == id);
}

/// The boundary that a sweep moves to lies below the latest version and covers every file that is
/// deleted: a writer cannot bring such an id back, and can still write after the latest version.
pub proof fn lemma_boundary_covers_sweep<E>(
    listing: Seq<IdentifiedObjectMetadata<u64>>,
    now: Timestamp,
    latest: u64,
    min_age: int,
    allowed: Option<Seq<ObjectMetadata>>,
    id: u64,
)
    ensures
        ({
            let selected = listing.filter(garbage(now, latest, min_age));
            let deleted = ids_of(swept(listing, now, latest, min_age, allowed));
            match greatest(ids_of(selected)) {
                Some(boundary) => {
                    &&& boundary < latest
                    &&& deleted.contains(id) ==> checked::<E>(id, boundary) == Err::<(), _>(
                        TransactionalObjectError::<E>::ObjectVersionExists,
                    )
                    &&& id >= latest ==> checked::<E>(id, boundary) == Ok::<
                        (),
                        TransactionalObjectError<E>,
                    >(())
                },
                None => deleted.len() == 0,
            }
        }),
{
    let model = garbage(now, latest, min_age);
    let selected = listing.filter(model);
    let files = swept(listing, now, latest, min_age, allowed);
    lemma_greatest(ids_of(selected));
    if greatest(ids_of(selected)) is Some {
        let boundary = greatest(ids_of(selected))->0;
        let j = choose|j: int| 0 <= j < ids_of(selected).len() && ids_of(selected)[j] == boundary;
        listing.lemma_filter_pred(model, j);
        if ids_of(files).contains(id) {
            let k = choose|k: int| 0 <= k < ids_of(files).len() && ids_of(files)[k] == id;
            assert(files.contains(files[k]));
            lemma_filtered_twice(listing, model, passing(allowed), files[k]);
            let i = choose|i: int| 0 <= i < selected.len() && selected[i] == files[k];
            assert(ids_of(selected)[i] == id);
        }
    } else {
        if files.len() > 0 {
            assert(files.contains(files[0]));
            lemma_filtered_twice(listing, model, passing(allowed), files[0]);
        }
    }
}

/// Where the filter lets nothing pass, nothing is deleted.
pub proof fn lemma_deny_all_deletes_nothing(
    listing: Seq<IdentifiedObjectMetadata<u64>>,
    now: Timestamp,
    latest: u64,
    min_age: int,
)
    ensures
        ids_of(swept(listing, now, latest, min_age, Some(Seq::empty()))).len() == 0,
{
    let none = Some(Seq::<ObjectMetadata>::empty());
    let files = swept(listing, now, latest, min_age, none);
    if files.len() > 0 {
        assert(files.contains(files[0]));
        lemma_filtered_twice(listing, garbage(now, latest, min_age), passing(none), files[0]);
        assert(among(Seq::<ObjectMetadata>::empty(), files[0].metadata));
    }
}

/// The paths of the versions with the ids `ids`.
pub open spec fn paths_of(at: ProtocolView, ids: Seq<u64>) -> Set<Seq<char>> {
    Set::new(
        |path: Seq<char>|
            exists|i: int| 0 <= i < ids.len() && path == at.path(#[trigger] ids[i]),
    )
}

/// Deleting versions before the newest one leaves the newest one as it is.
pub proof fn lemma_newest_survives<T, E>(
    before: World<T, E>,
    after: World<T, E>,
    at: ProtocolView,
    newest: u64,
    deleted: Seq<u64>,
)
    requires
        before.newest_is(at, newest),
        after.objects == before.objects.remove_keys(paths_of(at, deleted)),
        after.decode == before.decode,
        forall|i: int| 0 <= i < deleted.len() ==> #[trigger] deleted[i] < newest,
    ensures
        after.newest_is(at, newest),
        after.value(at, newest) == before.value(at, newest),
{
    assert(before.holds(at, newest as int));
    if paths_of(at, deleted).contains(at.path(newest)) {
        let i = choose|i: int|
            0 <= i < deleted.len() && at.path(newest) == at.path(#[trigger] deleted[i]);
        lemma_paths_differ(at.dir, at.suffix, newest, deleted[i]);
    }
    assert forall|id: int| #[trigger] after.holds(at, id) implies id <= newest by {
        assert(before.holds(at, id));
    }
}

/// A sweep of compactions files never takes the state that recovery needs: a reader that starts
/// afterwards, with nothing seen before, gets the latest version as it was before the sweep.
pub proof fn lemma_sweep_keeps_recovery<T, E>(
    before: World<T, E>,
    after: World<T, E>,
    at: ProtocolView,
    listing: Seq<IdentifiedObjectMetadata<u64>>,
    now: Timestamp,
    latest: u64,
    min_age: int,
    allowed: Option<Seq<ObjectMetadata>>,
    fuel: nat,
)
    requires
        readable_suffix(at.suffix),
        at.cache is None,
        before.newest_is(at, latest),
        after.objects == before.objects.remove_keys(
            paths_of(at, ids_of(swept(listing, now, latest, min_age, allowed))),
        ),
        after.decode == before.decode,
        after.lists_versions(at),
        fuel >= PROBE_LIMIT + 3,
    ensures
        run_read(after, at, read_start::<T, E>(at), fuel) matches Some(run) && run.result
            == before.value(at, latest),
{
    let deleted = ids_of(swept(listing, now, latest, min_age, allowed));
    assert forall|i: int| 0 <= i < deleted.len() implies #[trigger] deleted[i] < latest by {
        assert(deleted.contains(deleted[i]));
        lemma_sweep_deletes_only_garbage(listing, now, latest, min_age, allowed, deleted[i]);
    }
    lemma_newest_survives(before, after, at, latest, deleted);
    lemma_read_finds_newest(after, at, latest, fuel);
}

/// A sweep of compactions files without a filter leaves no gap in a store that had none, where the
/// listing shows every version and no version is older than one before it. So readers that have
/// seen a version still find the latest one from there.
pub proof fn lemma_sweep_leaves_no_gap<T, E>(
    before: World<T, E>,
    after: World<T, E>,
    at: ProtocolView,
    listing: Seq<IdentifiedObjectMetadata<u64>>,
    now: Timestamp,
    latest: u64,
    min_age: int,
)
    requires
        before.without_gaps(at),
        forall|id: int| #[trigger]
            before.holds(at, id) ==> exists|i: int|
                0 <= i < listing.len() && (#[trigger] listing[i]).id == id,
        forall|i: int, j: int|
            0 <= i < listing.len() && 0 <= j < listing.len() && (#[trigger] listing[i]).id <= (
            #[trigger] listing[j]).id && older_than(now, listing[j].metadata, min_age)
                ==> older_than(now, listing[i].metadata, min_age),
        after.objects == before.objects.remove_keys(
            paths_of(at, ids_of(swept(listing, now, latest, min_age, None))),
        ),
    ensures
        after.without_gaps(at),
{
    let model = garbage(now, latest, min_age);
    let selected = listing.filter(model);
    let files = swept(listing, now, latest, min_age, None);
    let deleted = ids_of(files);
    assert forall|a: int, b: int, c: int|
        #![trigger after.holds(at, a), after.holds(at, b), after.holds(at, c)]
        after.holds(at, a) && after.holds(at, c) && a <= b <= c implies after.holds(at, b) by {
        assert(before.holds(at, a) && before.holds(at, c));
        assert(before.holds(at, b));
        if !after.holds(at, b) {
            assert(paths_of(at, deleted).contains(at.path(b as u64)));
            let k = choose|k: int|
                0 <= k < deleted.len() && at.path(b as u64) == at.path(#[trigger] deleted[k]);
            lemma_paths_differ(at.dir, at.suffix, b as u64, deleted[k]);
            assert(deleted.contains(b as u64));
            lemma_sweep_deletes_only_garbage(listing, now, latest, min_age, None, b as u64);
            let j = choose|j: int|
                {
                    &&& 0 <= j < listing.len()
                    &&& (#[trigger] listing[j]).id == b as u64
                    &&& older_than(now, listing[j].metadata, min_age)
                    &&& passes(None, listing[j].metadata)
                };
            let i = choose|i: int| 0 <= i < listing.len() && (#[trigger] listing[i]).id == a;
            assert(listing[i].id <= listing[j].id);
            assert(model(listing[i]));
            listing.lemma_filter_contains(model, i);
            let m = choose|m: int| 0 <= m < selected.len() && selected[m] == listing[i];
            selected.lemma_filter_contains(passing(None), m);
            let n = choose|n: int| 0 <= n < files.len() && files[n] == listing[i];
            assert(deleted[n] == a as u64);
            assert(paths_of(at, deleted).contains(at.path(a as u64)));
        }
    }
}

/// A sweep of the log deletes only files that were listed, have an id below the one after which
/// the log is replayed, are of the collector's kind and older than the minimum age, may go by the
/// filter, and that no manifest in use refers to.
pub proof fn lemma_wal_sweep_deletes_only_garbage(
    listing: Seq<IdentifiedObjectMetadata<SsTableId>>,
    mode: WalGcMode,
    last_compacted: u64,
    now: Timestamp,
    min_age: int,
    manifests: Seq<WalReferences>,
    allowed: Option<Seq<ObjectMetadata>>,
    id: SsTableId,
)
    requires
        ids_of(
            listing.filter(wal_garbage(mode, last_compacted, now, min_age, manifests)).filter(
                passing(allowed),
            ),
        ).contains(id),
    ensures
        id->Wal_0 < last_compacted,
        !referenced(manifests, id->Wal_0),
        exists|i: int|
            {
                &&& 0 <= i < listing.len()
                &&& (#[trigger] listing[i]).id == id
                &&& mode.takes(listing[i].metadata.size)
                &&& older_than(now, listing[i].metadata, min_age)
                &&& passes(allowed, listing[i].metadata)
            },
{
    let model = wal_garbage(mode, last_compacted, now, min_age, manifests);
    let files = listing.filter(model).filter(passing(allowed));
    let k = choose|k: int| 0 <= k < ids_of(files).len() && ids_of(files)[k] == id;
    assert(files.contains(files[k]));
    lemma_filtered_twice(listing, model, passing(allowed), files[k]);
    let i = choose|i: int| 0 <= i < listing.len() && listing[i] == files[k];
    assert(listing[i].id == id);
}

/// The two kinds of collectors of the log share its files: each file that is garbage but for its
/// size is garbage for exactly one of them.
pub proof fn lemma_wal_modes_split_garbage(
    file: IdentifiedObjectMetadata<SsTableId>,
    last_compacted: u64,
    now: Timestamp,
    min_age: int,
    manifests: Seq<WalReferences>,
)
    ensures
        ({
            let regular = wal_garbage(WalGcMode::Regular, last_compacted, now, min_age, manifests);
            let fence = wal_garbage(WalGcMode::Fence, last_compacted, now, min_age, manifests);
            &&& !(regular(file) && fence(file))
            &&& regular(file) || fence(file) <==> file.id->Wal_0 < last_compacted && eligible(
                now,
                file,
                min_age,
                manifests,
            )
        }),
{
}

/// Where a listing of the log names each id once, no id is garbage for both kinds of collectors.
pub proof fn lemma_wal_modes_are_disjoint(
    listing: Seq<IdentifiedObjectMetadata<SsTableId>>,
    last_compacted: u64,
    now: Timestamp,
    min_age: int,
    manifests: Seq<WalReferences>,
    id: SsTableId,
)
    requires
        forall|i: int, j: int|
            0 <= i < j < listing.len() ==> (#[trigger] listing[i]).id != (#[trigger] listing[j]).id,
    ensures
        ({
            let regular = wal_garbage(WalGcMode::Regular, last_compacted, now, min_age, manifests);
            let fence = wal_garbage(WalGcMode::Fence, last_compacted, now, min_age, manifests);
            !(ids_of(listing.filter(regular)).contains(id) && ids_of(
                listing.filter(fence),
            ).contains(id))
        }),
{
    let regular = wal_garbage(WalGcMode::Regular, last_compacted, now, min_age, manifests);
    let fence = wal_garbage(WalGcMode::Fence, last_compacted, now, min_age, manifests);
    let a = listing.filter(regular);
    let b = listing.filter(fence);
    if ids_of(a).contains(id) && ids_of(b).contains(id) {
        let m = choose|m: int| 0 <= m < ids_of(a).len() && ids_of(a)[m] == id;
        let n = choose|n: int| 0 <= n < ids_of(b).len() && ids_of(b)[n] == id;
        listing.lemma_filter_pred(regular, m);
        listing.lemma_filter_pred(fence, n);
        assert(a.contains(a[m]) && b.contains(b[n]));
        listing.lemma_filter_contains_rev(regular, a[m]);
        listing.lemma_filter_contains_rev(fence, b[n]);
        let i = choose|i: int| 0 <= i < listing.len() && listing[i] == a[m];
        let j = choose|j: int| 0 <= j < listing.len() && listing[j] == b[n];
        assert(listing[i].id == listing[j].id);
    }
}

/// What leaves a cached listing of the log was to be deleted, and its deletion succeeded.
pub proof fn lemma_forgotten_was_deleted<E>(
    ids: Seq<SsTableId>,
    outcomes: Seq<Result<(), E>>,
    id: SsTableId,
)
    ensures
        deleted_ids(ids, outcomes).contains(id) <==> exists|i: int|
            0 <= i < ids.len() && #[trigger] ids[i] == id && outcomes[i] is Ok,
    decreases ids.len(),
{
    if ids.len() > 0 {
        let front = ids.drop_last();
        let last = ids.len() - 1;
        lemma_forgotten_was_deleted(front, outcomes, id);
        let rest = deleted_ids(front, outcomes);
        let all = deleted_ids(ids, outcomes);
        if all.contains(id) {
            let k = choose|k: int| 0 <= k < all.len() && all[k] == id;
            if k < rest.len() {
                assert(rest[k] == id);
                let i = choose|i: int|
                    0 <= i < front.len() && #[trigger] front[i] == id && outcomes[i] is Ok;
                assert(ids[i] == id);
            } else {
                assert(ids[last] == id);
            }
        }
        if exists|i: int| 0 <= i < ids.len() && #[trigger] ids[i] == id && outcomes[i] is Ok {
            let i = choose|i: int|
                0 <= i < ids.len() && #[trigger] ids[i] == id && outcomes[i] is Ok;
            if i < last {
                assert(front[i] == id);
                assert(rest.contains(id));
                let k = choose|k: int| 0 <= k < rest.len() && rest[k] == id;
                assert(all[k] == id);
            } else {
                assert(all[all.len() - 1] == id);
            }
        }
    }
}

} // verus!

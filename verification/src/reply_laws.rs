//! What each reply of the store leads to, reply by reply.
use crate::boundary::{
    advance_on_get, advance_on_put, advance_start, boundary_bytes, boundary_read,
    boundary_read_view, boundary_result_view, check_on_get, check_start, checked, parsed_boundary,
    AdvanceStep, AdvanceStepView, BoundaryView, CheckStep, CheckStepView, PendingAdvancePut,
    PendingAdvanceRead,
};
use crate::error::{StoreError, StoreErrorKind, TransactionalObjectError};
use crate::id::{IdBound, MonotonicId};
use crate::latest::{
    cached_view, delete_on_delete, fetched, probe_from, probe_next, read_on_decoded, read_on_get,
    read_on_list, read_start, revalidated, write_on_put, CachedLatest, CachedLatestView,
    PendingDecode, PendingDecodeView, PendingGet, PendingGetView, ProbeLatest, ProbeStepView,
    ProbeView, ProtocolView, ReadLatestStep, ReadLatestStepView,
};
use crate::listing::{has_file, identified, lemma_identified, lemma_newest_id, newest_id, shows};
use crate::gc::allowed_view;
use crate::naming::{parsed_id, version_path};
use crate::protocol::{id_after, version_result_view, ProbeStep};
use crate::store::{
    get_reply_view, put_reply_view, text_view, FetchedObject, FetchedObjectView, GetRequest,
    GetRequestView, ObjectMetadata, PutMode, PutModeView, PutRequest, PutRequestView, UpdateVersion,
    UpdateVersionView,
};
use vstd::prelude::*;

verus! {

/// A version is asked for at its path, without a condition; a version that was seen is asked for
/// at its path under the condition that its entity tag is another one, if it has one.
pub proof fn lemma_requests_for_versions(at: ProtocolView, id: u64, cur: CachedLatestView)
    ensures
        at.path(id) == version_path(at.dir, at.suffix, id),
        at.fetch(id) == (GetRequestView {
            path: version_path(at.dir, at.suffix, id),
            if_none_match: None,
        }),
        at.revalidate(cur) == (GetRequestView {
            path: version_path(at.dir, at.suffix, cur.id),
            if_none_match: cur.e_tag,
        }),
{
}

/// Of two versions that were seen the one with the greater id is kept, and of equal ids the one
/// seen first. Only the deletion of the very version that is kept makes it forgotten.
pub proof fn lemma_seen_version(at: ProtocolView, candidate: CachedLatestView, id: u64)
    ensures
        at.cached(candidate).dir == at.dir && at.cached(candidate).suffix == at.suffix,
        at.cached(candidate).cache == (if at.cache is Some && at.cache->0.id >= candidate.id {
            at.cache
        } else {
            Some(candidate)
        }),
        at.invalidated(id).dir == at.dir && at.invalidated(id).suffix == at.suffix,
        at.invalidated(id).cache == (if at.cache is Some && at.cache->0.id == id {
            None
        } else {
            at.cache
        }),
{
}

/// The reply to asking for version `id`: an object is that version, as the store sent it; that
/// there is none means none; and every other failure is passed on.
pub proof fn lemma_fetched_version<E>(id: u64, object: FetchedObjectView, e: StoreError<E>)
    ensures
        fetched::<E>(id, Ok(object)) == Ok::<_, TransactionalObjectError<E>>(
            Some(CachedLatestView { id, e_tag: object.version.e_tag, bytes: object.bytes }),
        ),
        e.kind == StoreErrorKind::NotFound ==> fetched::<E>(id, Err(e)) == Ok::<
            Option<CachedLatestView>,
            TransactionalObjectError<E>,
        >(None),
        e.kind != StoreErrorKind::NotFound ==> fetched::<E>(id, Err(e)) == Err::<
            Option<CachedLatestView>,
            _,
        >(TransactionalObjectError::ObjectStoreError(e)),
{
}

/// The reply to asking for a version that was seen: that it is not modified, where it has an entity
/// tag, means that very version; otherwise it is as for any version.
pub proof fn lemma_revalidated_version<E>(
    cur: CachedLatestView,
    object: FetchedObjectView,
    e: StoreError<E>,
)
    ensures
        revalidated::<E>(cur, Ok(object)) == Ok::<_, TransactionalObjectError<E>>(
            Some(
                CachedLatestView { id: cur.id, e_tag: object.version.e_tag, bytes: object.bytes },
            ),
        ),
        e.kind == StoreErrorKind::NotModified && cur.e_tag is Some ==> revalidated::<E>(cur, Err(e))
            == Ok::<_, TransactionalObjectError<E>>(Some(cur)),
        e.kind == StoreErrorKind::NotFound ==> revalidated::<E>(cur, Err(e)) == Ok::<
            Option<CachedLatestView>,
            TransactionalObjectError<E>,
        >(None),
        e.kind != StoreErrorKind::NotFound && !(e.kind == StoreErrorKind::NotModified
            && cur.e_tag is Some) ==> revalidated::<E>(cur, Err(e)) == Err::<
            Option<CachedLatestView>,
            _,
        >(TransactionalObjectError::ObjectStoreError(e)),
{
}

/// Where a walk can be, what it asks for, and when it has an id left to ask for. It starts at the
/// anchor with nothing found.
pub proof fn lemma_walk_positions<E>(
    at: ProtocolView,
    probe: ProbeView,
    reply: Result<FetchedObjectView, StoreError<E>>,
    anchor: CachedLatestView,
)
    ensures
        probe_from(anchor).cur == anchor,
        probe_from(anchor).found == 0,
        !probe_from(anchor).revalidating,
        probe.valid() <==> 0 <= probe.found <= 8 && (if probe.revalidating {
            probe.found == 0
        } else {
            probe.cur.id < u64::MAX
        }),
        probe.revalidating ==> probe.request(at) == at.revalidate(probe.cur),
        !probe.revalidating && probe.cur.id < u64::MAX ==> probe.request(at) == at.fetch(
            (probe.cur.id + 1) as u64,
        ),
        probe.has_room(reply) <==> probe.revalidating || reply is Err || probe.found >= 8
            || probe.cur.id + 1 < u64::MAX,
{
}

/// What a reader waits for is what its walk asks for, or the version that was listed, for which
/// there is always an id left.
pub proof fn lemma_reader_positions<E>(
    at: ProtocolView,
    probe: ProbeView,
    id: u64,
    reply: Result<FetchedObjectView, StoreError<E>>,
)
    ensures
        PendingGetView::Listed(id).valid(),
        PendingGetView::Listed(id).has_room(reply),
        PendingGetView::Listed(id).request(at) == at.fetch(id),
        PendingGetView::Probe(probe).valid() <==> probe.valid(),
        PendingGetView::Probe(probe).has_room(reply) <==> probe.has_room(reply),
        PendingGetView::Probe(probe).request(at) == probe.request(at),
{
}

/// A walk that finds the next version goes on from there, until it has found more than eight; it
/// then has no verdict, and remembers the last one.
pub proof fn lemma_walk_on_found<E>(at: ProtocolView, probe: ProbeView, object: FetchedObjectView)
    requires
        !probe.revalidating,
        probe.cur.id < u64::MAX,
    ensures
        ({
            let next = CachedLatestView {
                id: (probe.cur.id + 1) as u64,
                e_tag: object.version.e_tag,
                bytes: object.bytes,
            };
            if probe.found < 8 {
                probe_next::<E>(at, probe, Ok(object)) == (
                    at,
                    ProbeStepView::<E>::Get(
                        ProbeView { cur: next, found: probe.found + 1, revalidating: false },
                    ),
                )
            } else {
                probe_next::<E>(at, probe, Ok(object)) == (
                    at.cached(next),
                    ProbeStepView::<E>::Done(Ok(None)),
                )
            }
        }),
{
}

/// A walk that misses the next version ends at the one it found last, and remembers it; one that
/// has found nothing asks for the anchor.
pub proof fn lemma_walk_on_missing<E>(at: ProtocolView, probe: ProbeView, e: StoreError<E>)
    requires
        !probe.revalidating,
        e.kind == StoreErrorKind::NotFound,
        probe.found >= 0,
    ensures
        probe.found > 0 ==> probe_next(at, probe, Err(e)) == (
            at.cached(probe.cur),
            ProbeStepView::<E>::Done(Ok(Some(probe.cur))),
        ),
        probe.found == 0 ==> probe_next(at, probe, Err(e)) == (
            at,
            ProbeStepView::<E>::Get(
                ProbeView { cur: probe.cur, found: 0, revalidating: true },
            ),
        ),
{
}

/// A walk that asked for the anchor ends there where the anchor is unmodified, or with what the
/// store sent in its place; it has no verdict, and forgets the anchor, where that is gone.
pub proof fn lemma_walk_on_anchor<E>(
    at: ProtocolView,
    probe: ProbeView,
    object: FetchedObjectView,
    e: StoreError<E>,
)
    requires
        probe.revalidating,
    ensures
        ({
            let sent = CachedLatestView {
                id: probe.cur.id,
                e_tag: object.version.e_tag,
                bytes: object.bytes,
            };
            probe_next::<E>(at, probe, Ok(object)) == (
                at.cached(sent),
                ProbeStepView::<E>::Done(Ok(Some(sent))),
            )
        }),
        e.kind == StoreErrorKind::NotModified && probe.cur.e_tag is Some ==> probe_next(
            at,
            probe,
            Err(e),
        ) == (at.cached(probe.cur), ProbeStepView::<E>::Done(Ok(Some(probe.cur)))),
        e.kind == StoreErrorKind::NotFound ==> probe_next(at, probe, Err(e)) == (
            at.invalidated(probe.cur.id),
            ProbeStepView::<E>::Done(Ok(None)),
        ),
{
}

/// A walk passes every other failure on, and changes nothing.
pub proof fn lemma_walk_on_failure<E>(at: ProtocolView, probe: ProbeView, e: StoreError<E>)
    requires
        e.kind != StoreErrorKind::NotFound,
        !(probe.revalidating && probe.cur.e_tag is Some && e.kind == StoreErrorKind::NotModified),
    ensures
        probe_next(at, probe, Err(e)) == (
            at,
            ProbeStepView::<E>::Done(Err(TransactionalObjectError::ObjectStoreError(e))),
        ),
{
}

/// A reader of the latest version starts with a request for the version right after the one it has
/// seen, and with a listing of the directory where it has seen none.
pub proof fn lemma_reader_starts<T, E>(at: ProtocolView)
    ensures
        at.cache is None ==> read_start::<T, E>(at) == (ReadLatestStepView::<T, E>::List {
            prefix: at.dir,
        }),
        at.cache is Some && at.cache->0.id < u64::MAX ==> read_start::<T, E>(at) == (
        ReadLatestStepView::<T, E>::Get {
            request: GetRequestView {
                path: version_path(at.dir, at.suffix, (at.cache->0.id + 1) as u64),
                if_none_match: None,
            },
            pending: PendingGetView::Probe(
                ProbeView { cur: at.cache->0, found: 0, revalidating: false },
            ),
        }),
{
}

/// A reader does as its walk does: it asks for what the walk asks for, decodes what the walk ends
/// at, lists the directory where the walk has no verdict, and fails where the walk fails.
pub proof fn lemma_reader_walks<T, E>(
    at: ProtocolView,
    probe: ProbeView,
    reply: Result<FetchedObjectView, StoreError<E>>,
)
    ensures
        ({
            let (seen, walk) = probe_next(at, probe, reply);
            let (now, step) = read_on_get::<T, E>(at, PendingGetView::Probe(probe), reply);
            &&& now == seen
            &&& walk matches ProbeStepView::Get(next) ==> step == (ReadLatestStepView::<
                T,
                E,
            >::Get { request: next.request(at), pending: PendingGetView::Probe(next) })
            &&& walk matches ProbeStepView::Done(Ok(Some(hit))) ==> step == ReadLatestStepView::<
                T,
                E,
            >::Decode(PendingDecodeView { version: hit, listed: false })
            &&& walk == ProbeStepView::<E>::Done(Ok(None)) ==> step == (ReadLatestStepView::<
                T,
                E,
            >::List { prefix: at.dir })
            &&& walk matches ProbeStepView::Done(Err(e)) ==> step == ReadLatestStepView::<
                T,
                E,
            >::Done(Err(e))
        }),
{
}

/// A reader that has asked for a version that was listed decodes what the store sent, lists anew
/// where the version is gone meanwhile, and passes every other failure on.
pub proof fn lemma_reader_on_listed<T, E>(
    at: ProtocolView,
    id: u64,
    object: FetchedObjectView,
    e: StoreError<E>,
)
    ensures
        read_on_get::<T, E>(at, PendingGetView::Listed(id), Ok(object)) == (
            at,
            ReadLatestStepView::<T, E>::Decode(
                PendingDecodeView {
                    version: CachedLatestView {
                        id,
                        e_tag: object.version.e_tag,
                        bytes: object.bytes,
                    },
                    listed: true,
                },
            ),
        ),
        e.kind == StoreErrorKind::NotFound ==> read_on_get::<T, E>(
            at,
            PendingGetView::Listed(id),
            Err(e),
        ) == (at, ReadLatestStepView::<T, E>::List { prefix: at.dir }),
        e.kind != StoreErrorKind::NotFound ==> read_on_get::<T, E>(
            at,
            PendingGetView::Listed(id),
            Err(e),
        ) == (
            at,
            ReadLatestStepView::<T, E>::Done(Err(TransactionalObjectError::ObjectStoreError(e))),
        ),
{
}

/// After a listing a reader asks for the version of the greatest id that a name in it gives. It is
/// done, with nothing, where no name gives one, and passes the failure of a listing on.
pub proof fn lemma_reader_on_listing<T, E>(
    at: ProtocolView,
    listing: Seq<ObjectMetadata>,
    e: StoreError<E>,
)
    ensures
        read_on_list::<T, E>(at, Err(e)) == ReadLatestStepView::<T, E>::Done(
            Err(TransactionalObjectError::ObjectStoreError(e)),
        ),
        (forall|i: int|
            0 <= i < listing.len() ==> parsed_id((#[trigger] listing[i]).location@, at.suffix)
                is None) ==> read_on_list::<T, E>(at, Ok(listing)) == ReadLatestStepView::<
            T,
            E,
        >::Done(Ok(None)),
        forall|j: int, id: u64|
            #![trigger listing[j], version_path(at.dir, at.suffix, id)]
            0 <= j < listing.len() && parsed_id(listing[j].location@, at.suffix) == Some(id) && (
            forall|i: int|
                0 <= i < listing.len() ==> (parsed_id(
                    (#[trigger] listing[i]).location@,
                    at.suffix,
                ) matches Some(other) ==> other <= id)) ==> read_on_list::<T, E>(at, Ok(listing))
                == (ReadLatestStepView::<T, E>::Get {
                request: GetRequestView {
                    path: version_path(at.dir, at.suffix, id),
                    if_none_match: None,
                },
                pending: PendingGetView::Listed(id),
            }),
{
    let all = IdBound::Unbounded;
    let files = identified(listing, at.suffix, all, all);
    lemma_newest_id(files);
    if newest_id(files) is Some {
        let newest = newest_id(files)->0;
        assert(has_file(files, newest));
        lemma_identified(listing, at.suffix, all, all, newest);
        let i = choose|i: int|
            0 <= i < listing.len() && parsed_id((#[trigger] listing[i]).location@, at.suffix)
                == Some(newest);
        assert(parsed_id(listing[i].location@, at.suffix) is Some);
    }
    assert forall|j: int, id: u64|
        #![trigger listing[j], version_path(at.dir, at.suffix, id)]
        0 <= j < listing.len() && parsed_id(listing[j].location@, at.suffix) == Some(id) && (forall|
            i: int,
        |
            0 <= i < listing.len() ==> (parsed_id((#[trigger] listing[i]).location@, at.suffix)
                matches Some(other) ==> other <= id)) implies newest_id(files) == Some(id) by {
        assert(shows(listing, at.suffix, id));
        lemma_identified(listing, at.suffix, all, all, id);
        let newest = newest_id(files)->0;
        lemma_identified(listing, at.suffix, all, all, newest);
    }
}

/// A reader gives back the id and the value of the version that it had decoded, and remembers a
/// version that was listed. A failure of the codec is passed on, and nothing is remembered.
pub proof fn lemma_reader_on_decoded<T, E>(
    at: ProtocolView,
    version: CachedLatestView,
    value: T,
    e: E,
)
    ensures
        read_on_decoded::<T, E>(at, PendingDecodeView { version, listed: true }, Ok(value)) == (
            at.cached(version),
            Ok::<_, TransactionalObjectError<E>>(Some((MonotonicId { id: version.id }, value))),
        ),
        read_on_decoded::<T, E>(at, PendingDecodeView { version, listed: false }, Ok(value)) == (
            at,
            Ok::<_, TransactionalObjectError<E>>(Some((MonotonicId { id: version.id }, value))),
        ),
        forall|listed: bool|
            #[trigger] read_on_decoded::<T, E>(
                at,
                PendingDecodeView { version, listed },
                Err(e),
            ) == (
                at,
                Err::<Option<(MonotonicId, T)>, _>(TransactionalObjectError::CallbackError(e)),
            ),
{
}

/// A version that the store took is remembered with the entity tag that the store gave it. A
/// version that exists is refused, every other failure is passed on, and neither is remembered.
pub proof fn lemma_writer_on_reply<E>(
    at: ProtocolView,
    id: u64,
    bytes: Seq<u8>,
    version: UpdateVersionView,
    e: StoreError<E>,
)
    ensures
        write_on_put::<E>(at, id, bytes, Ok(version)) == (
            at.cached(CachedLatestView { id, e_tag: version.e_tag, bytes }),
            Ok::<_, TransactionalObjectError<E>>(MonotonicId { id }),
        ),
        e.kind == StoreErrorKind::AlreadyExists ==> write_on_put(at, id, bytes, Err(e)) == (
            at,
            Err::<MonotonicId, _>(TransactionalObjectError::<E>::ObjectVersionExists),
        ),
        e.kind != StoreErrorKind::AlreadyExists ==> write_on_put(at, id, bytes, Err(e)) == (
            at,
            Err::<MonotonicId, _>(TransactionalObjectError::ObjectStoreError(e)),
        ),
{
}

/// A version that the store has deleted is forgotten; a failure is passed on, and changes nothing.
pub proof fn lemma_deleter_on_reply<E>(at: ProtocolView, id: u64, e: StoreError<E>)
    ensures
        delete_on_delete::<E>(at, id, Ok(())) == (
            at.invalidated(id),
            Ok::<(), TransactionalObjectError<E>>(()),
        ),
        delete_on_delete(at, id, Err(e)) == (
            at,
            Err::<(), _>(TransactionalObjectError::ObjectStoreError(e)),
        ),
{
}

/// A new version has the id right after that of the current one, and the first one has the id one.
pub proof fn lemma_next_id(current: MonotonicId)
    ensures
        id_after(Some(current)) == current.id + 1,
        id_after(None) == 1,
{
}

/// Of two boundaries that were seen the greater is kept, and of equal ones the later seen.
pub proof fn lemma_seen_boundary(at: BoundaryView, boundary: u64, version: UpdateVersionView)
    ensures
        at.updated(boundary, version).path == at.path,
        at.updated(boundary, version).cache == (if at.cache is Some && (at.cache->0).0 > boundary {
            at.cache
        } else {
            Some((boundary, version))
        }),
{
}

/// The boundary is asked for in its file, under the condition that the entity tag is another one
/// than that seen last, if there is one. It is written to its file in decimal, where the file is
/// still the version that was seen, or still missing.
pub proof fn lemma_requests_for_boundary(
    at: BoundaryView,
    boundary: u64,
    version: UpdateVersionView,
)
    ensures
        at.read_request().path == at.path,
        at.read_request().if_none_match == (if at.cache is Some {
            (at.cache->0).1.e_tag
        } else {
            None
        }),
        at.write_request(boundary, None) == (PutRequestView {
            path: at.path,
            payload: boundary_bytes(boundary),
            mode: PutModeView::Create,
        }),
        at.write_request(boundary, Some(version)) == (PutRequestView {
            path: at.path,
            payload: boundary_bytes(boundary),
            mode: PutModeView::Update(version),
        }),
{
}

/// Reading the boundary gives the greater of what the file holds and what was seen; a file that
/// holds no number is invalid.
pub proof fn lemma_boundary_on_object<E>(at: BoundaryView, object: FetchedObjectView)
    ensures
        parsed_boundary(object.bytes) is None ==> boundary_read::<E>(at, Ok(object)) == (
            at,
            Err::<(u64, Option<UpdateVersionView>), _>(
                TransactionalObjectError::<E>::InvalidObjectState,
            ),
        ),
        parsed_boundary(object.bytes) matches Some(boundary) ==> (if at.cache is Some && (
        at.cache->0).0 > boundary {
            boundary_read::<E>(at, Ok(object)) == (
                at,
                Ok::<_, TransactionalObjectError<E>>(((at.cache->0).0, Some((at.cache->0).1))),
            )
        } else {
            boundary_read::<E>(at, Ok(object)) == (
                BoundaryView { path: at.path, cache: Some((boundary, object.version)) },
                Ok::<_, TransactionalObjectError<E>>((boundary, Some(object.version))),
            )
        }),
{
}

/// Reading the boundary gives `0` where the file is missing, and what was seen where it is not
/// modified; nothing was to be seen then is invalid. Every other failure is passed on. None of this
/// changes what was seen.
pub proof fn lemma_boundary_on_failure<E>(at: BoundaryView, e: StoreError<E>)
    ensures
        boundary_read(at, Err(e)).0 == at,
        e.kind == StoreErrorKind::NotFound ==> boundary_read(at, Err(e)).1 == Ok::<
            (u64, Option<UpdateVersionView>),
            TransactionalObjectError<E>,
        >((0, None)),
        e.kind == StoreErrorKind::NotModified && at.cache is Some ==> boundary_read(at, Err(e)).1
            == Ok::<_, TransactionalObjectError<E>>(((at.cache->0).0, Some((at.cache->0).1))),
        e.kind == StoreErrorKind::NotModified && at.cache is None ==> boundary_read(at, Err(e)).1
            == Err::<(u64, Option<UpdateVersionView>), _>(
            TransactionalObjectError::<E>::InvalidObjectState,
        ),
        e.kind != StoreErrorKind::NotFound && e.kind != StoreErrorKind::NotModified
            ==> boundary_read(at, Err(e)).1 == Err::<(u64, Option<UpdateVersionView>), _>(
            TransactionalObjectError::ObjectStoreError(e),
        ),
{
}

/// An id is refused where it is at or below the boundary, and only there. A check refuses by what
/// was seen without asking the store, and otherwise by what the store replies.
pub proof fn lemma_checks<E>(
    at: BoundaryView,
    id: u64,
    boundary: u64,
    reply: Result<FetchedObjectView, StoreError<E>>,
)
    ensures
        id > boundary ==> checked::<E>(id, boundary) == Ok::<(), TransactionalObjectError<E>>(()),
        id <= boundary ==> checked::<E>(id, boundary) == Err::<(), _>(
            TransactionalObjectError::<E>::ObjectVersionExists,
        ),
        at.cache is Some && id <= (at.cache->0).0 ==> check_start::<E>(at, id)
            == CheckStepView::<E>::Done(Err(TransactionalObjectError::ObjectVersionExists)),
        at.cache is None || id > (at.cache->0).0 ==> check_start::<E>(at, id)
            == CheckStepView::<E>::Get(at.read_request()),
        check_on_get(at, id, reply).0 == boundary_read(at, reply).0,
        boundary_read(at, reply).1 matches Err(e) ==> check_on_get(at, id, reply).1 == Err::<
            (),
            _,
        >(e),
        boundary_read(at, reply).1 matches Ok((read, _)) ==> (check_on_get(at, id, reply).1
            == if id > read {
            Ok::<(), TransactionalObjectError<E>>(())
        } else {
            Err(TransactionalObjectError::ObjectVersionExists)
        }),
{
}

/// Where an advance goes on from a boundary that is known, it is done if that is no less than its
/// target, and otherwise writes its target over the version it knows of. It reads the boundary
/// first where it knows of none.
pub proof fn lemma_advance_starts<E>(at: BoundaryView, target: u64)
    ensures
        at.cache is None ==> advance_start::<E>(at, target) == (AdvanceStepView::<E>::Get {
            request: at.read_request(),
            pending: PendingAdvanceRead { target: MonotonicId { id: target }, refresh: false },
        }),
        at.cache is Some && (at.cache->0).0 >= target ==> advance_start::<E>(at, target)
            == AdvanceStepView::<E>::Done(Ok(())),
        at.cache is Some && (at.cache->0).0 < target ==> advance_start::<E>(at, target) == (
        AdvanceStepView::<E>::Put {
            request: at.write_request(target, Some((at.cache->0).1)),
            pending: PendingAdvancePut { target: MonotonicId { id: target } },
        }),
{
}

/// After reading the boundary an advance goes on from what was read; where it read anew after a
/// conflict, it starts over from what is then known. A failure to read is passed on.
pub proof fn lemma_advance_on_read<E>(
    at: BoundaryView,
    target: MonotonicId,
    reply: Result<FetchedObjectView, StoreError<E>>,
)
    ensures
        forall|refresh: bool|
            (#[trigger] advance_on_get(at, PendingAdvanceRead { target, refresh }, reply)).0
                == boundary_read(at, reply).0,
        forall|refresh: bool|
            boundary_read(at, reply).1 matches Err(e) ==> (#[trigger] advance_on_get(
                at,
                PendingAdvanceRead { target, refresh },
                reply,
            )).1 == AdvanceStepView::<E>::Done(Err(e)),
        boundary_read(at, reply).1 is Ok ==> advance_on_get(
            at,
            PendingAdvanceRead { target, refresh: true },
            reply,
        ).1 == advance_start::<E>(boundary_read(at, reply).0, target.id),
        boundary_read(at, reply).1 matches Ok((read, version)) ==> (if read >= target.id {
            advance_on_get(at, PendingAdvanceRead { target, refresh: false }, reply).1
                == AdvanceStepView::<E>::Done(Ok(()))
        } else {
            advance_on_get(at, PendingAdvanceRead { target, refresh: false }, reply).1 == (
            AdvanceStepView::<E>::Put {
                request: boundary_read(at, reply).0.write_request(target.id, version),
                pending: PendingAdvancePut { target },
            })
        }),
{
}

/// An advance is done once its write was taken, and remembers it. Where another process was faster
/// it reads the boundary anew, and every other failure is passed on; neither changes what was seen.
pub proof fn lemma_advance_on_write<E>(
    at: BoundaryView,
    target: MonotonicId,
    version: UpdateVersionView,
    e: StoreError<E>,
)
    ensures
        advance_on_put::<E>(at, PendingAdvancePut { target }, Ok(version)) == (
            at.updated(target.id, version),
            AdvanceStepView::<E>::Done(Ok(())),
        ),
        e.kind == StoreErrorKind::AlreadyExists || e.kind == StoreErrorKind::Precondition
            ==> advance_on_put(at, PendingAdvancePut { target }, Err(e)) == (
            at,
            AdvanceStepView::<E>::Get {
                request: at.read_request(),
                pending: PendingAdvanceRead { target, refresh: true },
            },
        ),
        e.kind != StoreErrorKind::AlreadyExists && e.kind != StoreErrorKind::Precondition
            ==> advance_on_put(at, PendingAdvancePut { target }, Err(e)) == (
            at,
            AdvanceStepView::<E>::Done(Err(TransactionalObjectError::ObjectStoreError(e))),
        ),
{
}

/// The contents of requests and replies are all that they hold.
pub proof fn lemma_contents_of_requests<E>(
    get: GetRequest,
    put: PutRequest,
    version: UpdateVersion,
    object: FetchedObject,
    text: String,
    e: StoreError<E>,
)
    ensures
        text_view(Some(text)) == Some(text@),
        text_view(None) is None,
        get@ == (GetRequestView { path: get.path@, if_none_match: text_view(get.if_none_match) }),
        put@ == (PutRequestView { path: put.path@, payload: put.payload@, mode: put.mode@ }),
        PutMode::Create@ == PutModeView::Create,
        PutMode::Update(version)@ == PutModeView::Update(version@),
        version@ == (UpdateVersionView {
            e_tag: text_view(version.e_tag),
            version: text_view(version.version),
        }),
        object@ == (FetchedObjectView { version: object.version@, bytes: object.bytes@ }),
        get_reply_view::<E>(Ok(object)) == Ok::<_, StoreError<E>>(object@),
        get_reply_view(Err(e)) == Err::<FetchedObjectView, _>(e),
        put_reply_view::<E>(Ok(version)) == Ok::<_, StoreError<E>>(version@),
        put_reply_view(Err(e)) == Err::<UpdateVersionView, _>(e),
{
}

/// The contents of steps are all that they hold.
pub proof fn lemma_contents_of_steps<T, E>(
    request: GetRequest,
    put: PutRequest,
    cached: CachedLatest,
    probe: ProbeLatest,
    pending: PendingGet,
    decode: PendingDecode,
    prefix: String,
    read: Result<Option<(MonotonicId, T)>, TransactionalObjectError<E>>,
    found: Result<Option<CachedLatest>, TransactionalObjectError<E>>,
    boundary: (MonotonicId, Option<UpdateVersion>),
    e: TransactionalObjectError<E>,
    allowed: Vec<ObjectMetadata>,
    done: Result<(), TransactionalObjectError<E>>,
    id: MonotonicId,
    reading: PendingAdvanceRead,
    writing: PendingAdvancePut,
)
    ensures
        cached@ == (CachedLatestView {
            id: cached.id.id,
            e_tag: text_view(cached.e_tag),
            bytes: cached.bytes@,
        }),
        cached_view(Some(cached)) == Some(cached@),
        cached_view(None) is None,
        found matches Ok(version) ==> version_result_view(found) == Ok::<
            _,
            TransactionalObjectError<E>,
        >(cached_view(version)),
        found matches Err(e) ==> version_result_view(found) == Err::<
            Option<CachedLatestView>,
            _,
        >(e),
        (ProbeStep::<E>::Get { request, probe })@ == ProbeStepView::<E>::Get(probe@),
        ProbeStep::<E>::Done(found)@ == ProbeStepView::<E>::Done(version_result_view(found)),
        boundary_read_view(boundary).0 == boundary.0.id,
        boundary.1 matches Some(version) ==> boundary_read_view(boundary).1 == Some(version@),
        boundary.1 is None ==> boundary_read_view(boundary).1 is None,
        boundary_result_view::<E>(Ok(boundary)) == Ok::<_, TransactionalObjectError<E>>(
            boundary_read_view(boundary),
        ),
        boundary_result_view(Err(e)) == Err::<(u64, Option<UpdateVersionView>), _>(e),
        allowed_view(Some(allowed)) == Some(allowed@),
        allowed_view(None) is None,
        PendingGet::Probe(probe)@ == PendingGetView::Probe(probe@),
        PendingGet::Listed(id)@ == PendingGetView::Listed(id.id),
        decode@ == (PendingDecodeView { version: decode.version@, listed: decode.listed }),
        (ReadLatestStep::<T, E>::Get { request, pending })@ == (ReadLatestStepView::<T, E>::Get {
            request: request@,
            pending: pending@,
        }),
        (ReadLatestStep::<T, E>::List { prefix })@ == (ReadLatestStepView::<T, E>::List {
            prefix: prefix@,
        }),
        ReadLatestStep::<T, E>::Decode(decode)@ == ReadLatestStepView::<T, E>::Decode(decode@),
        ReadLatestStep::<T, E>::Done(read)@ == ReadLatestStepView::<T, E>::Done(read),
        CheckStep::<E>::Get(request)@ == CheckStepView::<E>::Get(request@),
        CheckStep::<E>::Done(done)@ == CheckStepView::<E>::Done(done),
        (AdvanceStep::<E>::Get { request, pending: reading })@ == (AdvanceStepView::<E>::Get {
            request: request@,
            pending: reading,
        }),
        (AdvanceStep::<E>::Put { request: put, pending: writing })@ == (AdvanceStepView::<E>::Put {
            request: put@,
            pending: writing,
        }),
        AdvanceStep::<E>::Done(done)@ == AdvanceStepView::<E>::Done(done),
{
}

} // verus!

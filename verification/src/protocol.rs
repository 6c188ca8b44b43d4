//! The versions of one object in an object store.
//!
//! Each operation is a sequence of steps. A step either hands out a request to the object store,
//! whose reply is the argument of the next step, or gives the operation's result. What was seen
//! of the latest version is kept between operations, and several of them may be under way at the
//! same time: each step is one critical section.
use crate::boundary::{
    AdvanceStep, BoundaryView, CheckStep, ObjectStoreBoundaryObject, PendingAdvancePut,
    PendingAdvanceRead,
};
use crate::error::{StoreError, StoreErrorKind, TransactionalObjectError};
use crate::id::{IdBound, MonotonicId};
use crate::latest::{
    cached_view, delete_on_delete, fetched, probe_from, probe_next, read_on_decoded, read_on_get,
    read_on_list, read_start, revalidated, write_on_put, CachedLatest, CachedLatestView,
    PendingDecode, PendingGet, ProbeLatest, ProbeStepView, ProtocolView, ReadLatestStep,
    ReadLatestStepView, PROBE_LIMIT,
};
use crate::listing::{identified, identify, is_stable_sort, lemma_last_is_newest};
use crate::naming::{
    id_of_path, lemma_path_gives_id, parsed_id, path_of_version, readable_suffix, version_path,
};
use crate::path::{below, join, path_part};
use crate::store::{
    get_reply_view, put_reply_view, GetReply, GetRequest, IdentifiedObjectMetadata, ListReply,
    PutMode, PutModeView, PutReply, PutRequest, PutRequestView,
};
use vstd::prelude::*;

verus! {

/// The versions of one object in an object store, and the latest of them that was seen.
///
/// Each version is a file of its own, and is never changed. A new version has the id right after
/// that of the version before it, and is written only where no version has that id. `B` is the
/// boundary that ids of new versions must lie above.
pub struct ObjectStoreSequencedStorageProtocol<B> {
    dir_path: String,
    file_suffix: String,
    boundary: B,
    latest_cache: Option<CachedLatest>,
}

impl<B> View for ObjectStoreSequencedStorageProtocol<B> {
    type V = ProtocolView;

    closed spec fn view(&self) -> ProtocolView {
        ProtocolView {
            dir: self.dir_path@,
            suffix: self.file_suffix@,
            cache: cached_view(self.latest_cache),
        }
    }
}

/// Where a walk from the anchor stands after a reply.
#[derive(Debug)]
pub enum ProbeStep<E> {
    /// It goes on with this request.
    Get { request: GetRequest, probe: ProbeLatest },
    /// It is over, with the latest version; with no verdict; or with a failure.
    Done(Result<Option<CachedLatest>, TransactionalObjectError<E>>),
}

/// A result that may hold a version, by its contents.
pub open spec fn version_result_view<E>(
    result: Result<Option<CachedLatest>, TransactionalObjectError<E>>,
) -> Result<Option<CachedLatestView>, TransactionalObjectError<E>> {
    match result {
        Ok(version) => Ok(cached_view(version)),
        Err(e) => Err(e),
    }
}

impl<E> View for ProbeStep<E> {
    type V = ProbeStepView<E>;

    open spec fn view(&self) -> ProbeStepView<E> {
        match self {
            ProbeStep::Get { request: _, probe } => ProbeStepView::Get(probe@),
            ProbeStep::Done(result) => ProbeStepView::Done(version_result_view(*result)),
        }
    }
}

/// A version that is being written.
#[derive(Debug)]
pub struct PendingWrite {
    pub id: MonotonicId,
    pub bytes: Vec<u8>,
}

/// What a reader of one version does next.
#[derive(Debug)]
pub enum ReadVersionStep<T, E> {
    /// It has these contents decoded.
    Decode(Vec<u8>),
    /// It is done.
    Done(Result<Option<T>, TransactionalObjectError<E>>),
}

/// The id of the version after `current`; the first id where there is none.
pub open spec fn id_after(current: Option<MonotonicId>) -> int {
    match current {
        Some(current) => current.id + 1,
        None => 1,
    }
}

impl ObjectStoreSequencedStorageProtocol<ObjectStoreBoundaryObject> {
    /// The object in the directory `subdir` of `root_path`, whose files end in `file_suffix`, with
    /// the boundary of the name `subdir`. No version of it was seen yet.
    pub fn new(root_path: &str, subdir: &str, file_suffix: &str) -> (r: Self)
        ensures
            r@ == (ProtocolView {
                dir: below(root_path@, path_part(subdir@)),
                suffix: file_suffix@,
                cache: None,
            }),
            r.boundary_spec()@ == (BoundaryView {
                path: crate::boundary::boundary_path(root_path@, subdir@),
                cache: None,
            }),
    {
        let boundary = ObjectStoreBoundaryObject::new(root_path, subdir);
        Self::new_with_boundary(root_path, subdir, file_suffix, boundary)
    }

    /// Starts checking that `id` lies above the boundary.
    pub fn check<E>(&self, id: MonotonicId) -> (step: CheckStep<E>)
        ensures
            step@ == crate::boundary::check_start::<E>(self.boundary_spec()@, id.id),
    {
        self.boundary.check(id)
    }

    /// Goes on checking that `id` lies above the boundary, after the reply to reading it.
    pub fn check_on_get<E>(&mut self, id: MonotonicId, reply: GetReply<E>) -> (result: Result<
        (),
        TransactionalObjectError<E>,
    >)
        ensures
            final(self)@ == old(self)@,
            (final(self).boundary_spec()@, result) == crate::boundary::check_on_get(
                old(self).boundary_spec()@,
                id.id,
                get_reply_view(reply),
            ),
    {
        self.boundary.check_on_get(id, reply)
    }

    /// Starts moving the boundary up to `boundary`.
    pub fn advance<E>(&self, boundary: MonotonicId) -> (step: AdvanceStep<E>)
        ensures
            step@ == crate::boundary::advance_start::<E>(self.boundary_spec()@, boundary.id),
    {
        self.boundary.advance(boundary)
    }

    /// Goes on moving the boundary, after the reply to reading it.
    pub fn advance_on_get<E>(&mut self, pending: PendingAdvanceRead, reply: GetReply<E>) -> (step:
        AdvanceStep<E>)
        ensures
            final(self)@ == old(self)@,
            (final(self).boundary_spec()@, step@) == crate::boundary::advance_on_get(
                old(self).boundary_spec()@,
                pending,
                get_reply_view(reply),
            ),
    {
        self.boundary.advance_on_get(pending, reply)
    }

    /// Goes on moving the boundary, after the reply to writing it.
    pub fn advance_on_put<E>(&mut self, pending: PendingAdvancePut, reply: PutReply<E>) -> (step:
        AdvanceStep<E>)
        ensures
            final(self)@ == old(self)@,
            (final(self).boundary_spec()@, step@) == crate::boundary::advance_on_put(
                old(self).boundary_spec()@,
                pending,
                put_reply_view(reply),
            ),
    {
        self.boundary.advance_on_put(pending, reply)
    }
}

impl<B> ObjectStoreSequencedStorageProtocol<B> {
    /// The boundary that ids of new versions must lie above.
    pub closed spec fn boundary_spec(&self) -> B {
        self.boundary
    }

    /// The object in the directory `subdir` of `root_path`, whose files end in `file_suffix`, with
    /// the boundary `boundary`. No version of it was seen yet.
    pub fn new_with_boundary(root_path: &str, subdir: &str, file_suffix: &str, boundary: B) -> (r:
        Self)
        ensures
            r@ == (ProtocolView {
                dir: below(root_path@, path_part(subdir@)),
                suffix: file_suffix@,
                cache: None,
            }),
            r.boundary_spec() == boundary,
    {
        ObjectStoreSequencedStorageProtocol {
            dir_path: join(root_path, subdir),
            file_suffix: String::from_str(file_suffix),
            boundary,
            latest_cache: None,
        }
    }

    /// The boundary that ids of new versions must lie above.
    pub fn boundary(&self) -> (boundary: &B)
        ensures
            *boundary == self.boundary_spec(),
    {
        &self.boundary
    }

    /// The path of version `id`. Where the suffix can be read off a path, so can the id.
    pub fn path_for(&self, id: MonotonicId) -> (path: String)
        ensures
            path@ == self@.path(id.id),
            path@ == version_path(self@.dir, self@.suffix, id.id),
            readable_suffix(self@.suffix) ==> parsed_id(path@, self@.suffix) == Some(id.id),
    {
        proof {
            if readable_suffix(self@.suffix) {
                lemma_path_gives_id(self@.dir, self@.suffix, id.id);
            }
        }
        path_of_version(self.dir_path.as_str(), self.file_suffix.as_str(), id)
    }

    /// The id that the object at `path` has by its name; its state is invalid where the name gives
    /// none.
    pub fn parse_id<E>(&self, path: &str) -> (id: Result<MonotonicId, TransactionalObjectError<E>>)
        ensures
            id == match parsed_id(path@, self@.suffix) {
                Some(id) => Ok(MonotonicId { id }),
                None => Err(TransactionalObjectError::<E>::InvalidObjectState),
            },
    {
        match id_of_path(path, self.file_suffix.as_str()) {
            Some(id) => Ok(id),
            None => Err(TransactionalObjectError::InvalidObjectState),
        }
    }

    /// The request for version `id`.
    pub fn fetch_version(&self, id: MonotonicId) -> (request: GetRequest)
        ensures
            request@ == self@.fetch(id.id),
    {
        GetRequest { path: self.path_for(id), if_none_match: None }
    }

    /// What the reply to the request for version `id` says.
    pub fn fetch_version_on_get<E>(id: MonotonicId, reply: GetReply<E>) -> (version: Result<
        Option<CachedLatest>,
        TransactionalObjectError<E>,
    >)
        ensures
            version_result_view(version) == fetched(id.id, get_reply_view(reply)),
    {
        match reply {
            Ok(object) => Ok(
                Some(CachedLatest { id, e_tag: object.version.e_tag, bytes: object.bytes }),
            ),
            Err(e) => match e.kind {
                StoreErrorKind::NotFound => Ok(None),
                _ => Err(TransactionalObjectError::ObjectStoreError(e)),
            },
        }
    }

    /// Moves what was seen of the latest version forward to `candidate`, and never back.
    pub fn cache_latest(&mut self, candidate: CachedLatest)
        ensures
            final(self)@ == old(self)@.cached(candidate@),
            final(self).boundary_spec() == old(self).boundary_spec(),
    {
        let keep: bool = match &self.latest_cache {
            Some(cached) => cached.id.id >= candidate.id.id,
            None => false,
        };
        if !keep {
            self.latest_cache = Some(candidate);
        }
    }

    /// Forgets what was seen of the latest version where that is version `id`, which is gone.
    pub fn invalidate_cached(&mut self, id: MonotonicId)
        ensures
            final(self)@ == old(self)@.invalidated(id.id),
            final(self).boundary_spec() == old(self).boundary_spec(),
    {
        let gone: bool = match &self.latest_cache {
            Some(cached) => cached.id.id == id.id,
            None => false,
        };
        if gone {
            self.latest_cache = None;
        }
    }

    /// The request that shows whether the version `cur` is still there.
    pub fn revalidate_anchor(&self, cur: &CachedLatest) -> (request: GetRequest)
        ensures
            request@ == self@.revalidate(cur@),
    {
        GetRequest {
            path: self.path_for(cur.id),
            if_none_match: crate::store::clone_text(&cur.e_tag),
        }
    }

    /// What the reply to the request that shows whether `cur` is still there says.
    pub fn revalidate_anchor_on_get<E>(cur: CachedLatest, reply: GetReply<E>) -> (version: Result<
        Option<CachedLatest>,
        TransactionalObjectError<E>,
    >)
        ensures
            version_result_view(version) == revalidated(cur@, get_reply_view(reply)),
    {
        let unmodified: bool = match &reply {
            Ok(_) => false,
            Err(e) => match e.kind {
                StoreErrorKind::NotModified => cur.e_tag.is_some(),
                _ => false,
            },
        };
        if unmodified {
            Ok(Some(cur))
        } else {
            Self::fetch_version_on_get(cur.id, reply)
        }
    }

    /// Whether there is an id after that of the latest version that was seen, if one was.
    pub fn has_next_id(&self) -> (b: bool)
        ensures
            b == (self@.cache is Some ==> self@.cache->0.id < u64::MAX),
    {
        match &self.latest_cache {
            Some(cached) => cached.id.id < u64::MAX,
            None => true,
        }
    }

    /// Starts a walk towards the latest version, where a version was seen before.
    pub fn try_probe_latest(&self) -> (started: Option<(GetRequest, ProbeLatest)>)
        requires
            self@.cache is Some ==> self@.cache->0.id < u64::MAX,
        ensures
            started is Some <==> self@.cache is Some,
            started is Some ==> {
                &&& (started->0).1@ == probe_from(self@.cache->0)
                &&& (started->0).0@ == (started->0).1@.request(self@)
                &&& (started->0).1@.valid()
            },
    {
        match &self.latest_cache {
            Some(cached) => {
                let request: GetRequest = self.fetch_version(cached.id.next());
                let cur: CachedLatest = cached.duplicate();
                Some((request, ProbeLatest::new(cur, 0, false)))
            },
            None => None,
        }
    }

    /// Goes on with a walk towards the latest version, after the reply to its request.
    pub fn try_probe_latest_on_get<E>(&mut self, probe: ProbeLatest, reply: GetReply<E>) -> (step:
        ProbeStep<E>)
        requires
            probe@.has_room(get_reply_view(reply)),
        ensures
            (final(self)@, step@) == probe_next(old(self)@, probe@, get_reply_view(reply)),
            step matches ProbeStep::Get { request, probe: next } ==> {
                &&& request@ == next@.request(final(self)@)
                &&& next@.valid()
            },
            final(self).boundary_spec() == old(self).boundary_spec(),
    {
        let (cur, found, revalidating): (CachedLatest, usize, bool) = probe.into_parts();
        let cur_id: MonotonicId = cur.id;
        if revalidating {
            return match Self::revalidate_anchor_on_get(cur, reply) {
                Ok(Some(fresh)) => {
                    self.cache_latest(fresh.duplicate());
                    ProbeStep::Done(Ok(Some(fresh)))
                },
                Ok(None) => {
                    self.invalidate_cached(cur_id);
                    ProbeStep::Done(Ok(None))
                },
                Err(e) => ProbeStep::Done(Err(e)),
            };
        }
        match Self::fetch_version_on_get(cur_id.next(), reply) {
            Ok(Some(next)) => {
                if found < PROBE_LIMIT {
                    let request: GetRequest = self.fetch_version(next.id.next());
                    ProbeStep::Get { request, probe: ProbeLatest::new(next, found + 1, false) }
                } else {
                    // Versions are still being found: a listing shows the rest.
                    self.cache_latest(next);
                    ProbeStep::Done(Ok(None))
                }
            },
            Ok(None) => {
                if found > 0 {
                    // The version was fetched in this walk, so it need not be asked for again.
                    self.cache_latest(cur.duplicate());
                    ProbeStep::Done(Ok(Some(cur)))
                } else {
                    let request: GetRequest = self.revalidate_anchor(&cur);
                    ProbeStep::Get { request, probe: ProbeLatest::new(cur, found, true) }
                }
            },
            Err(e) => ProbeStep::Done(Err(e)),
        }
    }

    /// Starts writing `bytes` as the version after `current_id`, or as the first one.
    pub fn write_unchecked(&self, current_id: Option<MonotonicId>, bytes: Vec<u8>) -> (started: (
        PutRequest,
        PendingWrite,
    ))
        requires
            id_after(current_id) <= u64::MAX,
        ensures
            started.1.id.id == id_after(current_id),
            current_id matches Some(current) ==> started.1.id.id == current.id + 1,
            current_id is None ==> started.1.id.id == 1,
            started.1.bytes@ == bytes@,
            started.0@ == (PutRequestView {
                path: self@.path(started.1.id.id),
                payload: bytes@,
                mode: PutModeView::Create,
            }),
    {
        let id: MonotonicId = match current_id {
            Some(current) => current.next(),
            None => MonotonicId::initial(),
        };
        let payload: Vec<u8> = bytes.clone();
        assert(payload@ == bytes@);
        let request = PutRequest { path: self.path_for(id), payload, mode: PutMode::Create };
        (request, PendingWrite { id, bytes })
    }

    /// Goes on with writing a version, after the store's reply. The version exists already where
    /// the store holds an object at its path.
    pub fn write_unchecked_on_put<E>(&mut self, pending: PendingWrite, reply: PutReply<E>) -> (id:
        Result<MonotonicId, TransactionalObjectError<E>>)
        ensures
            final(self).boundary_spec() == old(self).boundary_spec(),
            (final(self)@, id) == write_on_put(
                old(self)@,
                pending.id.id,
                pending.bytes@,
                put_reply_view(reply),
            ),
    {
        match reply {
            Ok(version) => {
                let id: MonotonicId = pending.id;
                self.cache_latest(CachedLatest { id, e_tag: version.e_tag, bytes: pending.bytes });
                Ok(id)
            },
            Err(e) => match e.kind {
                StoreErrorKind::AlreadyExists => Err(TransactionalObjectError::ObjectVersionExists),
                _ => Err(TransactionalObjectError::ObjectStoreError(e)),
            },
        }
    }

    /// Starts reading the latest version.
    pub fn try_read_latest_unchecked<T, E>(&self) -> (step: ReadLatestStep<T, E>)
        requires
            self@.cache is Some ==> self@.cache->0.id < u64::MAX,
        ensures
            step@ == read_start::<T, E>(self@),
            step@ matches ReadLatestStepView::Get { pending, .. } ==> pending.valid(),
    {
        match self.try_probe_latest() {
            Some((request, probe)) => {
                ReadLatestStep::Get { request, pending: PendingGet::Probe(probe) }
            },
            None => ReadLatestStep::List { prefix: self.dir_path.clone() },
        }
    }

    /// Goes on with reading the latest version, after the reply to a request for an object.
    pub fn try_read_latest_unchecked_on_get<T, E>(
        &mut self,
        pending: PendingGet,
        reply: GetReply<E>,
    ) -> (step: ReadLatestStep<T, E>)
        requires
            pending@.has_room(get_reply_view(reply)),
        ensures
            (final(self)@, step@) == read_on_get::<T, E>(
                old(self)@,
                pending@,
                get_reply_view(reply),
            ),
            step@ matches ReadLatestStepView::Get { pending, .. } ==> pending.valid(),
            final(self).boundary_spec() == old(self).boundary_spec(),
    {
        match pending {
            PendingGet::Probe(probe) => match self.try_probe_latest_on_get(probe, reply) {
                ProbeStep::Get { request, probe } => {
                    ReadLatestStep::Get { request, pending: PendingGet::Probe(probe) }
                },
                ProbeStep::Done(Ok(Some(hit))) => {
                    ReadLatestStep::Decode(PendingDecode { version: hit, listed: false })
                },
                ProbeStep::Done(Ok(None)) => ReadLatestStep::List { prefix: self.dir_path.clone() },
                ProbeStep::Done(Err(e)) => ReadLatestStep::Done(Err(e)),
            },
            PendingGet::Listed(id) => match Self::fetch_version_on_get(id, reply) {
                Ok(Some(version)) => ReadLatestStep::Decode(
                    PendingDecode { version, listed: true },
                ),
                // The file was listed but is gone, probably deleted meanwhile: look again.
                Ok(None) => ReadLatestStep::List { prefix: self.dir_path.clone() },
                Err(e) => ReadLatestStep::Done(Err(e)),
            },
        }
    }

    /// Goes on with reading the latest version, after a listing.
    pub fn try_read_latest_unchecked_on_list<T, E>(&self, reply: ListReply<E>) -> (step:
        ReadLatestStep<T, E>)
        ensures
            step@ == read_on_list::<T, E>(
                self@,
                match reply {
                    Ok(listing) => Ok(listing@),
                    Err(e) => Err(e),
                },
            ),
            step@ matches ReadLatestStepView::Get { pending, .. } ==> pending.valid(),
    {
        match self.list_on_list(IdBound::Unbounded, IdBound::Unbounded, reply) {
            Ok(files) => {
                proof {
                    let listing = reply->Ok_0@;
                    lemma_last_is_newest(
                        files@,
                        identified(listing, self@.suffix, IdBound::Unbounded, IdBound::Unbounded),
                    );
                }
                if files.len() == 0 {
                    ReadLatestStep::Done(Ok(None))
                } else {
                    let id: MonotonicId = files[files.len() - 1].id;
                    let request: GetRequest = self.fetch_version(id);
                    ReadLatestStep::Get { request, pending: PendingGet::Listed(id) }
                }
            },
            Err(e) => ReadLatestStep::Done(Err(e)),
        }
    }

    /// Ends reading the latest version, once its contents are decoded.
    pub fn try_read_latest_unchecked_on_decoded<T, E>(
        &mut self,
        pending: PendingDecode,
        decoded: Result<T, E>,
    ) -> (result: Result<Option<(MonotonicId, T)>, TransactionalObjectError<E>>)
        ensures
            (final(self)@, result) == read_on_decoded(old(self)@, pending@, decoded),
            final(self).boundary_spec() == old(self).boundary_spec(),
    {
        match decoded {
            Ok(value) => {
                let id: MonotonicId = pending.version.id;
                if pending.listed {
                    self.cache_latest(pending.version);
                }
                Ok(Some((id, value)))
            },
            Err(e) => Err(TransactionalObjectError::CallbackError(e)),
        }
    }

    /// Starts reading version `id`.
    pub fn try_read_unchecked(&self, id: MonotonicId) -> (request: GetRequest)
        ensures
            request@ == self@.fetch(id.id),
    {
        self.fetch_version(id)
    }

    /// Goes on with reading a version, after the store's reply.
    pub fn try_read_unchecked_on_get<T, E>(reply: GetReply<E>) -> (step: ReadVersionStep<T, E>)
        ensures
            match reply {
                Ok(object) => step matches ReadVersionStep::Decode(bytes) && bytes@
                    == object.bytes@,
                Err(e) => step == ReadVersionStep::<T, E>::Done(
                    if e.kind == StoreErrorKind::NotFound {
                        Ok(None)
                    } else {
                        Err(TransactionalObjectError::ObjectStoreError(e))
                    },
                ),
            },
    {
        match reply {
            Ok(object) => ReadVersionStep::Decode(object.bytes),
            Err(e) => match e.kind {
                StoreErrorKind::NotFound => ReadVersionStep::Done(Ok(None)),
                _ => ReadVersionStep::Done(Err(TransactionalObjectError::ObjectStoreError(e))),
            },
        }
    }

    /// Ends reading a version, once its contents are decoded.
    pub fn try_read_unchecked_on_decoded<T, E>(decoded: Result<T, E>) -> (result: Result<
        Option<T>,
        TransactionalObjectError<E>,
    >)
        ensures
            result == match decoded {
                Ok(value) => Ok::<Option<T>, _>(Some(value)),
                Err(e) => Err(TransactionalObjectError::CallbackError(e)),
            },
    {
        match decoded {
            Ok(value) => Ok(Some(value)),
            Err(e) => Err(TransactionalObjectError::CallbackError(e)),
        }
    }

    /// Starts listing versions: the directory that is to be listed.
    pub fn list(&self) -> (prefix: String)
        ensures
            prefix@ == self@.dir,
    {
        self.dir_path.clone()
    }

    /// The versions between `from` and `to` that a listing shows, in the order of their ids. Files
    /// whose names give no id are passed over.
    pub fn list_on_list<E>(
        &self,
        from: IdBound,
        to: IdBound,
        reply: ListReply<E>,
    ) -> (files: Result<
        Vec<IdentifiedObjectMetadata<MonotonicId>>,
        TransactionalObjectError<E>,
    >)
        ensures
            match reply {
                Ok(listing) => files matches Ok(files) && is_stable_sort(
                    files@,
                    identified(listing@, self@.suffix, from, to),
                ),
                Err(e) => files matches Err(error) && error
                    == TransactionalObjectError::ObjectStoreError(e),
            },
    {
        match reply {
            Ok(listing) => Ok(identify(listing, self.file_suffix.as_str(), from, to)),
            Err(e) => Err(TransactionalObjectError::ObjectStoreError(e)),
        }
    }

    /// Starts deleting version `id`: the path of the object that is to be deleted.
    pub fn delete_unchecked(&self, id: MonotonicId) -> (path: String)
        ensures
            path@ == self@.path(id.id),
    {
        self.path_for(id)
    }

    /// Ends deleting version `id`, after the store's reply.
    pub fn delete_unchecked_on_delete<E>(
        &mut self,
        id: MonotonicId,
        reply: Result<(), StoreError<E>>,
    ) -> (result: Result<(), TransactionalObjectError<E>>)
        ensures
            final(self).boundary_spec() == old(self).boundary_spec(),
            (final(self)@, result) == delete_on_delete(old(self)@, id.id, reply),
    {
        match reply {
            Ok(_) => {
                self.invalidate_cached(id);
                Ok(())
            },
            Err(e) => Err(TransactionalObjectError::ObjectStoreError(e)),
        }
    }
}

} // verus!

//! Finding the latest version of an object without listing its directory.
//!
//! Ids are dense: every version has the id right after that of the version before it. So from a
//! version that was seen before, the anchor, the latest one is found by asking for one id after
//! another until none is there. Where not even the first of them is there, the anchor itself is
//! asked for again, since it may have been deleted meanwhile. Where there is no anchor, where it
//! is gone, or where too many versions lie ahead of it, the directory is listed.
use crate::error::{StoreError, StoreErrorKind, TransactionalObjectError};
use crate::id::{IdBound, MonotonicId};
use crate::listing::{identified, newest_id};
use crate::naming::version_path;
use crate::store::{
    clone_text, get_reply_view, text_view, FetchedObjectView, GetReply, GetRequest, GetRequestView,
    ObjectMetadata, UpdateVersionView,
};
use vstd::prelude::*;

verus! {

/// How many versions may lie ahead of the anchor for the latest one to be found without a listing.
/// Where a walk finds one more than that, the directory is listed.
pub const PROBE_LIMIT: usize = 8;

/// A version of an object that was seen in the store.
#[derive(Debug)]
pub struct CachedLatest {
    pub id: MonotonicId,
    pub e_tag: Option<String>,
    pub bytes: Vec<u8>,
}

/// A `CachedLatest` by its contents.
pub struct CachedLatestView {
    pub id: u64,
    pub e_tag: Option<Seq<char>>,
    pub bytes: Seq<u8>,
}

impl View for CachedLatest {
    type V = CachedLatestView;

    open spec fn view(&self) -> CachedLatestView {
        CachedLatestView { id: self.id.id, e_tag: text_view(self.e_tag), bytes: self.bytes@ }
    }
}

impl CachedLatest {
    /// A copy of this version.
    pub fn duplicate(&self) -> (copy: CachedLatest)
        ensures
            copy@ == self@,
    {
        let bytes: Vec<u8> = self.bytes.clone();
        assert(bytes@ == self.bytes@);
        CachedLatest { id: self.id, e_tag: clone_text(&self.e_tag), bytes }
    }
}

/// A version that may not have been seen, by its contents.
pub open spec fn cached_view(cached: Option<CachedLatest>) -> Option<CachedLatestView> {
    match cached {
        Some(version) => Some(version@),
        None => None,
    }
}

/// Where an object's versions lie, and the latest of them that was seen.
pub struct ProtocolView {
    pub dir: Seq<char>,
    pub suffix: Seq<char>,
    pub cache: Option<CachedLatestView>,
}

impl ProtocolView {
    /// The path of version `id`.
    pub open spec fn path(self, id: u64) -> Seq<char> {
        version_path(self.dir, self.suffix, id)
    }

    /// The request for version `id`.
    pub open spec fn fetch(self, id: u64) -> GetRequestView {
        GetRequestView { path: self.path(id), if_none_match: None }
    }

    /// The request that shows whether the version `cur` is still there. It asks for the contents
    /// only where they are not those of `cur`, as far as `cur` has an entity tag to tell.
    pub open spec fn revalidate(self, cur: CachedLatestView) -> GetRequestView {
        GetRequestView { path: self.path(cur.id), if_none_match: cur.e_tag }
    }

    /// This protocol with another version seen: the later of that one and the one it had.
    pub open spec fn cached(self, candidate: CachedLatestView) -> ProtocolView {
        match self.cache {
            Some(cached) if cached.id >= candidate.id => self,
            _ => ProtocolView { cache: Some(candidate), ..self },
        }
    }

    /// This protocol where version `id` is known to be gone.
    pub open spec fn invalidated(self, id: u64) -> ProtocolView {
        match self.cache {
            Some(cached) if cached.id == id => ProtocolView { cache: None, ..self },
            _ => self,
        }
    }
}

/// What the reply to the request for version `id` says: the version; that there is none; or that
/// the store failed.
pub open spec fn fetched<E>(
    id: u64,
    reply: Result<FetchedObjectView, StoreError<E>>,
) -> Result<Option<CachedLatestView>, TransactionalObjectError<E>> {
    match reply {
        Ok(object) => Ok(
            Some(CachedLatestView { id, e_tag: object.version.e_tag, bytes: object.bytes }),
        ),
        Err(e) => if e.kind == StoreErrorKind::NotFound {
            Ok(None)
        } else {
            Err(TransactionalObjectError::ObjectStoreError(e))
        },
    }
}

/// What the reply to the request that shows whether `cur` is still there says. A store that was
/// given an entity tag may reply that `cur` is not modified.
pub open spec fn revalidated<E>(
    cur: CachedLatestView,
    reply: Result<FetchedObjectView, StoreError<E>>,
) -> Result<Option<CachedLatestView>, TransactionalObjectError<E>> {
    match reply {
        Err(e) if cur.e_tag is Some && e.kind == StoreErrorKind::NotModified => Ok(Some(cur)),
        _ => fetched(cur.id, reply),
    }
}

/// A walk from the anchor towards the latest version.
#[derive(Debug)]
pub struct ProbeLatest {
    cur: CachedLatest,
    found: usize,
    revalidating: bool,
}

/// A `ProbeLatest` by its contents: the last version found, the anchor at first; how many were
/// found past the anchor; and whether the anchor itself is being asked for.
pub struct ProbeView {
    pub cur: CachedLatestView,
    pub found: int,
    pub revalidating: bool,
}

impl View for ProbeLatest {
    type V = ProbeView;

    closed spec fn view(&self) -> ProbeView {
        ProbeView { cur: self.cur@, found: self.found as int, revalidating: self.revalidating }
    }
}

impl ProbeLatest {
    #[verifier::type_invariant]
    spec fn inv(self) -> bool {
        self@.valid()
    }

    /// The walk that is at `cur`.
    pub(crate) fn new(cur: CachedLatest, found: usize, revalidating: bool) -> (probe: ProbeLatest)
        requires
            (ProbeView { cur: cur@, found: found as int, revalidating }).valid(),
        ensures
            probe@ == (ProbeView { cur: cur@, found: found as int, revalidating }),
    {
        ProbeLatest { cur, found, revalidating }
    }

    /// Where this walk is.
    pub(crate) fn into_parts(self) -> (parts: (CachedLatest, usize, bool))
        ensures
            self@ == (ProbeView {
                cur: parts.0@,
                found: parts.1 as int,
                revalidating: parts.2,
            }),
            self@.valid(),
    {
        proof {
            use_type_invariant(&self);
        }
        (self.cur, self.found, self.revalidating)
    }

    /// Whether the walk has an id left to ask for after `reply`.
    pub fn has_next_id<E>(&self, reply: &GetReply<E>) -> (b: bool)
        ensures
            b == self@.has_room(get_reply_view(*reply)),
    {
        proof {
            use_type_invariant(self);
        }
        self.revalidating || reply.is_err() || self.found >= PROBE_LIMIT || self.cur.id.id + 1
            < u64::MAX
    }
}

impl ProbeView {
    /// Whether a walk can be here: it has found no more versions than it may go on from, has an id
    /// left to ask for, and only a walk that found nothing asks for the anchor.
    pub open spec fn valid(self) -> bool {
        &&& 0 <= self.found <= PROBE_LIMIT
        &&& self.revalidating ==> self.found == 0
        &&& !self.revalidating ==> self.cur.id < u64::MAX
    }

    /// What a walk that is here asks the store for.
    pub open spec fn request(self, at: ProtocolView) -> GetRequestView {
        if self.revalidating {
            at.revalidate(self.cur)
        } else {
            at.fetch((self.cur.id + 1) as u64)
        }
    }

    /// Whether the walk has an id left to ask for after `reply`: where `reply` is the version with
    /// the last id there is, the walk must be at its end.
    pub open spec fn has_room<E>(self, reply: Result<FetchedObjectView, StoreError<E>>) -> bool {
        !self.revalidating && reply is Ok && self.found < PROBE_LIMIT ==> self.cur.id + 1
            < u64::MAX
    }
}

/// The walk that starts from `anchor`.
pub open spec fn probe_from(anchor: CachedLatestView) -> ProbeView {
    ProbeView { cur: anchor, found: 0, revalidating: false }
}

/// Where a walk stands after a reply.
pub enum ProbeStepView<E> {
    /// It goes on from here.
    Get(ProbeView),
    /// It is over, with the latest version; with no verdict; or with a failure.
    Done(Result<Option<CachedLatestView>, TransactionalObjectError<E>>),
}

/// Where a walk at `probe` stands after `reply`, and what is then known of the latest version.
pub open spec fn probe_next<E>(
    at: ProtocolView,
    probe: ProbeView,
    reply: Result<FetchedObjectView, StoreError<E>>,
) -> (ProtocolView, ProbeStepView<E>) {
    if probe.revalidating {
        match revalidated(probe.cur, reply) {
            Ok(Some(fresh)) => (at.cached(fresh), ProbeStepView::Done(Ok(Some(fresh)))),
            Ok(None) => (at.invalidated(probe.cur.id), ProbeStepView::Done(Ok(None))),
            Err(e) => (at, ProbeStepView::Done(Err(e))),
        }
    } else {
        match fetched((probe.cur.id + 1) as u64, reply) {
            Ok(Some(next)) => if probe.found < PROBE_LIMIT {
                (
                    at,
                    ProbeStepView::Get(
                        ProbeView { cur: next, found: probe.found + 1, revalidating: false },
                    ),
                )
            } else {
                (at.cached(next), ProbeStepView::Done(Ok(None)))
            },
            Ok(None) => if probe.found > 0 {
                (at.cached(probe.cur), ProbeStepView::Done(Ok(Some(probe.cur))))
            } else {
                (at, ProbeStepView::Get(ProbeView { revalidating: true, ..probe }))
            },
            Err(e) => (at, ProbeStepView::Done(Err(e))),
        }
    }
}

/// What a reader of the latest version waits for from the store.
#[derive(Debug)]
pub enum PendingGet {
    /// The reply to a walk from the anchor.
    Probe(ProbeLatest),
    /// The version with the greatest id that a listing showed.
    Listed(MonotonicId),
}

/// A `PendingGet` by its contents.
pub enum PendingGetView {
    Probe(ProbeView),
    Listed(u64),
}

impl View for PendingGet {
    type V = PendingGetView;

    open spec fn view(&self) -> PendingGetView {
        match self {
            PendingGet::Probe(probe) => PendingGetView::Probe(probe@),
            PendingGet::Listed(id) => PendingGetView::Listed(id.id),
        }
    }
}

impl PendingGet {
    /// Whether the reader has an id left to ask for after `reply`.
    pub fn has_next_id<E>(&self, reply: &GetReply<E>) -> (b: bool)
        ensures
            b == self@.has_room(get_reply_view(*reply)),
    {
        match self {
            PendingGet::Probe(probe) => probe.has_next_id(reply),
            PendingGet::Listed(_) => true,
        }
    }
}

impl PendingGetView {
    /// Whether a reader can wait for this.
    pub open spec fn valid(self) -> bool {
        match self {
            PendingGetView::Probe(probe) => probe.valid(),
            PendingGetView::Listed(_) => true,
        }
    }

    /// What a reader that waits for this has asked the store for.
    pub open spec fn request(self, at: ProtocolView) -> GetRequestView {
        match self {
            PendingGetView::Probe(probe) => probe.request(at),
            PendingGetView::Listed(id) => at.fetch(id),
        }
    }

    /// Whether the reader has an id left to ask for after `reply`.
    pub open spec fn has_room<E>(self, reply: Result<FetchedObjectView, StoreError<E>>) -> bool {
        match self {
            PendingGetView::Probe(probe) => probe.has_room(reply),
            PendingGetView::Listed(_) => true,
        }
    }
}

/// A version whose contents are to be decoded.
#[derive(Debug)]
pub struct PendingDecode {
    pub version: CachedLatest,
    pub listed: bool,
}

/// A `PendingDecode` by its contents: the version, and whether it was found by a listing.
pub struct PendingDecodeView {
    pub version: CachedLatestView,
    pub listed: bool,
}

impl View for PendingDecode {
    type V = PendingDecodeView;

    open spec fn view(&self) -> PendingDecodeView {
        PendingDecodeView { version: self.version@, listed: self.listed }
    }
}

/// What a reader of the latest version does next.
#[derive(Debug)]
pub enum ReadLatestStep<T, E> {
    /// It asks the store for an object.
    Get { request: GetRequest, pending: PendingGet },
    /// It asks the store for a listing.
    List { prefix: String },
    /// It has the contents of a version decoded.
    Decode(PendingDecode),
    /// It is done.
    Done(Result<Option<(MonotonicId, T)>, TransactionalObjectError<E>>),
}

/// A `ReadLatestStep` by its contents.
pub enum ReadLatestStepView<T, E> {
    Get { request: GetRequestView, pending: PendingGetView },
    List { prefix: Seq<char> },
    Decode(PendingDecodeView),
    Done(Result<Option<(MonotonicId, T)>, TransactionalObjectError<E>>),
}

impl<T, E> View for ReadLatestStep<T, E> {
    type V = ReadLatestStepView<T, E>;

    open spec fn view(&self) -> ReadLatestStepView<T, E> {
        match self {
            ReadLatestStep::Get { request, pending } => ReadLatestStepView::Get {
                request: request@,
                pending: pending@,
            },
            ReadLatestStep::List { prefix } => ReadLatestStepView::List { prefix: prefix@ },
            ReadLatestStep::Decode(pending) => ReadLatestStepView::Decode(pending@),
            ReadLatestStep::Done(result) => ReadLatestStepView::Done(*result),
        }
    }
}

/// The step of a reader that waits for `pending`.
pub open spec fn waiting<T, E>(at: ProtocolView, pending: PendingGetView) -> ReadLatestStepView<
    T,
    E,
> {
    ReadLatestStepView::Get { request: pending.request(at), pending }
}

/// How a reader of the latest version starts: with a walk where a version was seen before, and
/// with a listing otherwise.
pub open spec fn read_start<T, E>(at: ProtocolView) -> ReadLatestStepView<T, E> {
    match at.cache {
        Some(anchor) => waiting(at, PendingGetView::Probe(probe_from(anchor))),
        None => ReadLatestStepView::List { prefix: at.dir },
    }
}

/// How a reader goes on after the store's reply to a request for an object. It lists the directory
/// where the walk gave no verdict, and again where the version that was listed is gone.
pub open spec fn read_on_get<T, E>(
    at: ProtocolView,
    pending: PendingGetView,
    reply: Result<FetchedObjectView, StoreError<E>>,
) -> (ProtocolView, ReadLatestStepView<T, E>) {
    match pending {
        PendingGetView::Probe(probe) => {
            let (now, step) = probe_next(at, probe, reply);
            match step {
                ProbeStepView::Get(next) => (now, waiting(now, PendingGetView::Probe(next))),
                ProbeStepView::Done(Ok(Some(hit))) => (
                    now,
                    ReadLatestStepView::Decode(PendingDecodeView { version: hit, listed: false }),
                ),
                ProbeStepView::Done(Ok(None)) => (now, ReadLatestStepView::List { prefix: at.dir }),
                ProbeStepView::Done(Err(e)) => (now, ReadLatestStepView::Done(Err(e))),
            }
        },
        PendingGetView::Listed(id) => match fetched(id, reply) {
            Ok(Some(version)) => (
                at,
                ReadLatestStepView::Decode(PendingDecodeView { version, listed: true }),
            ),
            Ok(None) => (at, ReadLatestStepView::List { prefix: at.dir }),
            Err(e) => (at, ReadLatestStepView::Done(Err(e))),
        },
    }
}

/// How a reader goes on after a listing: with the version of the greatest id, if there is any.
pub open spec fn read_on_list<T, E>(
    at: ProtocolView,
    reply: Result<Seq<ObjectMetadata>, StoreError<E>>,
) -> ReadLatestStepView<T, E> {
    match reply {
        Ok(listing) => match newest_id(
            identified(listing, at.suffix, IdBound::Unbounded, IdBound::Unbounded),
        ) {
            Some(id) => waiting(at, PendingGetView::Listed(id)),
            None => ReadLatestStepView::Done(Ok(None)),
        },
        Err(e) => ReadLatestStepView::Done(Err(TransactionalObjectError::ObjectStoreError(e))),
    }
}

/// What a reader gives back once the contents of `pending` are decoded, and what is then known of
/// the latest version.
pub open spec fn read_on_decoded<T, E>(
    at: ProtocolView,
    pending: PendingDecodeView,
    decoded: Result<T, E>,
) -> (ProtocolView, Result<Option<(MonotonicId, T)>, TransactionalObjectError<E>>) {
    match decoded {
        Ok(value) => (
            if pending.listed {
                at.cached(pending.version)
            } else {
                at
            },
            Ok(Some((MonotonicId { id: pending.version.id }, value))),
        ),
        Err(e) => (at, Err(TransactionalObjectError::CallbackError(e))),
    }
}

/// What is known of the latest version after the store's reply to writing `bytes` as version `id`,
/// and the result: the version exists already where the store holds an object at its path.
pub open spec fn write_on_put<E>(
    at: ProtocolView,
    id: u64,
    bytes: Seq<u8>,
    reply: Result<UpdateVersionView, StoreError<E>>,
) -> (ProtocolView, Result<MonotonicId, TransactionalObjectError<E>>) {
    match reply {
        Ok(version) => (
            at.cached(CachedLatestView { id, e_tag: version.e_tag, bytes }),
            Ok(MonotonicId { id }),
        ),
        Err(e) => (
            at,
            Err(
                if e.kind == StoreErrorKind::AlreadyExists {
                    TransactionalObjectError::ObjectVersionExists
                } else {
                    TransactionalObjectError::ObjectStoreError(e)
                },
            ),
        ),
    }
}

/// What is known of the latest version after the store's reply to deleting version `id`, and the
/// result.
pub open spec fn delete_on_delete<E>(
    at: ProtocolView,
    id: u64,
    reply: Result<(), StoreError<E>>,
) -> (ProtocolView, Result<(), TransactionalObjectError<E>>) {
    match reply {
        Ok(_) => (at.invalidated(id), Ok(())),
        Err(e) => (at, Err(TransactionalObjectError::ObjectStoreError(e))),
    }
}

} // verus!

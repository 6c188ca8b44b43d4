//! The boundary of an object: ids at or below it are spent, and no new version may have one.
//!
//! The boundary is one small file in the store, its number in decimal, and only ever moves up.
//! What was last seen of it is kept, so that it can be read again only where it has changed.
use crate::decimal::{
    decimal, lemma_decimal_parses, lemma_decimal_value, parse_u64, parsed_u64, push_decimal,
};
use crate::error::{StoreError, StoreErrorKind, TransactionalObjectError};
use crate::id::MonotonicId;
use crate::path::{below, join, path_part};
use crate::store::{
    clone_text, get_reply_view, put_reply_view, FetchedObjectView, GetReply, GetRequest,
    GetRequestView, PutMode, PutModeView, PutReply, PutRequest, PutRequestView, UpdateVersion,
    UpdateVersionView,
};
use crate::text::{chars_of, decode_text, trim_range, trimmed, trimmed_end, trimmed_start};
use vstd::prelude::*;
use vstd::string::*;
use vstd::utf8::{decode_utf8, encode_utf8, valid_utf8};

verus! {

/// The path of the boundary with the name `name`.
pub open spec fn boundary_path(root: Seq<char>, name: Seq<char>) -> Seq<char> {
    below(below(root, path_part("gc"@)), path_part(name + ".boundary"@))
}

/// The contents of a file that holds the boundary `boundary`: its number in decimal.
pub open spec fn boundary_bytes(boundary: u64) -> Seq<u8> {
    encode_utf8(decimal(boundary as nat))
}

/// The boundary that a file with the contents `bytes` holds: a number, with white space round it.
pub open spec fn parsed_boundary(bytes: Seq<u8>) -> Option<u64> {
    if valid_utf8(bytes) {
        parsed_u64(trimmed(decode_utf8(bytes)))
    } else {
        None
    }
}

/// Where a boundary lies, and what was last seen of it.
pub struct BoundaryView {
    pub path: Seq<char>,
    pub cache: Option<(u64, UpdateVersionView)>,
}

/// A boundary that was read, and the version of the file that it came from, if there is a file.
pub type BoundaryReadView = (u64, Option<UpdateVersionView>);

impl BoundaryView {
    /// What was seen last, once `boundary` is seen in the version `version` of the file: the
    /// greater of the two boundaries, and of equal ones the later seen.
    pub open spec fn updated(self, boundary: u64, version: UpdateVersionView) -> BoundaryView {
        match self.cache {
            Some((cached, _)) if cached > boundary => self,
            _ => BoundaryView { cache: Some((boundary, version)), ..self },
        }
    }

    /// The request for the boundary. It asks for the contents only where they are not those that
    /// were seen last, as far as there is an entity tag to tell.
    pub open spec fn read_request(self) -> GetRequestView {
        GetRequestView {
            path: self.path,
            if_none_match: match self.cache {
                Some((_, version)) => version.e_tag,
                None => None,
            },
        }
    }

    /// The request that writes `boundary`, where the file is still the version `version`, or
    /// still missing.
    pub open spec fn write_request(
        self,
        boundary: u64,
        version: Option<UpdateVersionView>,
    ) -> PutRequestView {
        PutRequestView {
            path: self.path,
            payload: boundary_bytes(boundary),
            mode: match version {
                Some(version) => PutModeView::Update(version),
                None => PutModeView::Create,
            },
        }
    }
}

/// What is known of the boundary after the reply to reading it, and what was read: of a missing
/// file `0`, whatever was seen before.
pub open spec fn boundary_read<E>(
    at: BoundaryView,
    reply: Result<FetchedObjectView, StoreError<E>>,
) -> (BoundaryView, Result<BoundaryReadView, TransactionalObjectError<E>>) {
    match reply {
        Ok(object) => match parsed_boundary(object.bytes) {
            Some(boundary) => {
                let now = at.updated(boundary, object.version);
                (now, Ok(((now.cache->0).0, Some((now.cache->0).1))))
            },
            None => (at, Err(TransactionalObjectError::InvalidObjectState)),
        },
        Err(e) => match e.kind {
            StoreErrorKind::NotModified => match at.cache {
                Some((boundary, version)) => (at, Ok((boundary, Some(version)))),
                None => (at, Err(TransactionalObjectError::InvalidObjectState)),
            },
            StoreErrorKind::NotFound => (at, Ok((0, None))),
            _ => (at, Err(TransactionalObjectError::ObjectStoreError(e))),
        },
    }
}

/// Whether `id` may be the id of a new version.
pub open spec fn checked<E>(id: u64, boundary: u64) -> Result<(), TransactionalObjectError<E>> {
    if id <= boundary {
        Err(TransactionalObjectError::ObjectVersionExists)
    } else {
        Ok(())
    }
}

/// What a check of an id does next.
#[derive(Debug)]
pub enum CheckStep<E> {
    /// It reads the boundary.
    Get(GetRequest),
    /// It is done.
    Done(Result<(), TransactionalObjectError<E>>),
}

/// A `CheckStep` by its contents.
pub enum CheckStepView<E> {
    Get(GetRequestView),
    Done(Result<(), TransactionalObjectError<E>>),
}

impl<E> View for CheckStep<E> {
    type V = CheckStepView<E>;

    open spec fn view(&self) -> CheckStepView<E> {
        match self {
            CheckStep::Get(request) => CheckStepView::Get(request@),
            CheckStep::Done(result) => CheckStepView::Done(*result),
        }
    }
}

/// How a check of `id` starts: an id at or below the boundary seen last is refused without asking
/// the store.
pub open spec fn check_start<E>(at: BoundaryView, id: u64) -> CheckStepView<E> {
    match at.cache {
        Some((boundary, _)) if id <= boundary => CheckStepView::Done(checked(id, boundary)),
        _ => CheckStepView::Get(at.read_request()),
    }
}

/// How a check of `id` ends, after the reply to reading the boundary.
pub open spec fn check_on_get<E>(
    at: BoundaryView,
    id: u64,
    reply: Result<FetchedObjectView, StoreError<E>>,
) -> (BoundaryView, Result<(), TransactionalObjectError<E>>) {
    let (now, read) = boundary_read(at, reply);
    match read {
        Ok((boundary, _)) => (now, checked(id, boundary)),
        Err(e) => (now, Err(e)),
    }
}

/// An advance of the boundary that waits for the boundary to be read: to learn where it is, or to
/// see it anew after another process has moved it.
#[derive(Clone, Copy, Debug, PartialEq, Eq, Structural)]
pub struct PendingAdvanceRead {
    pub target: MonotonicId,
    pub refresh: bool,
}

/// An advance of the boundary that waits for the boundary to be written.
#[derive(Clone, Copy, Debug, PartialEq, Eq, Structural)]
pub struct PendingAdvancePut {
    pub target: MonotonicId,
}

/// What an advance of the boundary does next.
#[derive(Debug)]
pub enum AdvanceStep<E> {
    /// It reads the boundary.
    Get { request: GetRequest, pending: PendingAdvanceRead },
    /// It writes the boundary.
    Put { request: PutRequest, pending: PendingAdvancePut },
    /// It is done.
    Done(Result<(), TransactionalObjectError<E>>),
}

/// An `AdvanceStep` by its contents.
pub enum AdvanceStepView<E> {
    Get { request: GetRequestView, pending: PendingAdvanceRead },
    Put { request: PutRequestView, pending: PendingAdvancePut },
    Done(Result<(), TransactionalObjectError<E>>),
}

impl<E> View for AdvanceStep<E> {
    type V = AdvanceStepView<E>;

    open spec fn view(&self) -> AdvanceStepView<E> {
        match self {
            AdvanceStep::Get { request, pending } => AdvanceStepView::Get {
                request: request@,
                pending: *pending,
            },
            AdvanceStep::Put { request, pending } => AdvanceStepView::Put {
                request: request@,
                pending: *pending,
            },
            AdvanceStep::Done(result) => AdvanceStepView::Done(*result),
        }
    }
}

/// How an advance to `target` goes on from the boundary `current`: it is done where the boundary
/// is there already, and otherwise writes it.
pub open spec fn advance_from<E>(
    at: BoundaryView,
    target: u64,
    current: BoundaryReadView,
) -> AdvanceStepView<E> {
    if current.0 >= target {
        AdvanceStepView::Done(Ok(()))
    } else {
        AdvanceStepView::Put {
            request: at.write_request(target, current.1),
            pending: PendingAdvancePut { target: MonotonicId { id: target } },
        }
    }
}

/// How an advance to `target` starts: from the boundary seen last, where there is one.
pub open spec fn advance_start<E>(at: BoundaryView, target: u64) -> AdvanceStepView<E> {
    match at.cache {
        Some((boundary, version)) => advance_from(at, target, (boundary, Some(version))),
        None => AdvanceStepView::Get {
            request: at.read_request(),
            pending: PendingAdvanceRead { target: MonotonicId { id: target }, refresh: false },
        },
    }
}

/// How an advance goes on after the reply to reading the boundary.
pub open spec fn advance_on_get<E>(
    at: BoundaryView,
    pending: PendingAdvanceRead,
    reply: Result<FetchedObjectView, StoreError<E>>,
) -> (BoundaryView, AdvanceStepView<E>) {
    let (now, read) = boundary_read(at, reply);
    match read {
        Ok(current) => (
            now,
            if pending.refresh {
                advance_start(now, pending.target.id)
            } else {
                advance_from(now, pending.target.id, current)
            },
        ),
        Err(e) => (now, AdvanceStepView::Done(Err(e))),
    }
}

/// How an advance goes on after the reply to writing the boundary: where another process has
/// written it meanwhile, it is read again.
pub open spec fn advance_on_put<E>(
    at: BoundaryView,
    pending: PendingAdvancePut,
    reply: Result<UpdateVersionView, StoreError<E>>,
) -> (BoundaryView, AdvanceStepView<E>) {
    match reply {
        Ok(version) => (at.updated(pending.target.id, version), AdvanceStepView::Done(Ok(()))),
        Err(e) => if e.kind == StoreErrorKind::AlreadyExists || e.kind
            == StoreErrorKind::Precondition {
            (
                at,
                AdvanceStepView::Get {
                    request: at.read_request(),
                    pending: PendingAdvanceRead { target: pending.target, refresh: true },
                },
            )
        } else {
            (at, AdvanceStepView::Done(Err(TransactionalObjectError::ObjectStoreError(e))))
        },
    }
}

proof fn lemma_decimal_is_ascii_digits(n: nat)
    ensures
        decimal(n).len() > 0,
        trimmed(decimal(n)) == decimal(n),
{
    lemma_decimal_value(n);
    let s = decimal(n);
    assert(crate::decimal::is_digit(s[0]));
    assert(crate::decimal::is_digit(s[s.len() - 1]));
    assert(trimmed_start(s) == s);
    assert(trimmed_end(s) == s);
}

/// A boundary is read back from the contents it is written as.
pub proof fn lemma_boundary_is_read_back(boundary: u64)
    ensures
        parsed_boundary(boundary_bytes(boundary)) == Some(boundary),
{
    let s = decimal(boundary as nat);
    lemma_decimal_is_ascii_digits(boundary as nat);
    lemma_decimal_parses(boundary);
    vstd::utf8::encode_utf8_valid_utf8(s);
    vstd::utf8::encode_utf8_decode_utf8(s);
}

/// The contents of a file that holds the boundary `boundary`.
fn encode_boundary(boundary: MonotonicId) -> (bytes: Vec<u8>)
    ensures
        bytes@ == boundary_bytes(boundary.id),
{
    let mut text: String = String::new();
    push_decimal(&mut text, boundary.id);
    assert(text@ == decimal(boundary.id as nat));
    text.as_str().as_bytes_vec()
}

/// The boundary that a file with the contents `bytes` holds.
fn decode_boundary(bytes: &Vec<u8>) -> (boundary: Option<MonotonicId>)
    ensures
        match boundary {
            Some(boundary) => parsed_boundary(bytes@) == Some(boundary.id),
            None => parsed_boundary(bytes@) is None,
        },
{
    match decode_text(bytes.as_slice()) {
        Some(text) => {
            let chars: Vec<char> = chars_of(text);
            let (start, end): (usize, usize) = trim_range(&chars);
            match parse_u64(&chars, start, end) {
                Some(id) => Some(MonotonicId { id }),
                None => None,
            }
        },
        None => None,
    }
}

/// A boundary in an object store, and what was last seen of it.
pub struct ObjectStoreBoundaryObject {
    filepath: String,
    cache: Option<(MonotonicId, UpdateVersion)>,
}

impl View for ObjectStoreBoundaryObject {
    type V = BoundaryView;

    closed spec fn view(&self) -> BoundaryView {
        BoundaryView {
            path: self.filepath@,
            cache: match self.cache {
                Some((boundary, version)) => Some((boundary.id, version@)),
                None => None,
            },
        }
    }
}

/// A boundary that was read, by its contents.
pub open spec fn boundary_read_view(
    read: (MonotonicId, Option<UpdateVersion>),
) -> BoundaryReadView {
    (
        read.0.id,
        match read.1 {
            Some(version) => Some(version@),
            None => None,
        },
    )
}

/// The outcome of reading a boundary, by its contents.
pub open spec fn boundary_result_view<E>(
    result: Result<(MonotonicId, Option<UpdateVersion>), TransactionalObjectError<E>>,
) -> Result<BoundaryReadView, TransactionalObjectError<E>> {
    match result {
        Ok(read) => Ok(boundary_read_view(read)),
        Err(e) => Err(e),
    }
}

impl ObjectStoreBoundaryObject {
    /// The boundary with the name `name` below `root_path`. Nothing was seen of it yet.
    pub fn new(root_path: &str, name: &str) -> (r: Self)
        ensures
            r@ == (BoundaryView { path: boundary_path(root_path@, name@), cache: None }),
    {
        let mut file: String = String::from_str(name);
        file.append(".boundary");
        let dir: String = join(root_path, "gc");
        ObjectStoreBoundaryObject {
            filepath: join(dir.as_str(), file.as_str()),
            cache: None,
        }
    }

    /// Keeps `boundary`, seen in the version `version` of the file, unless a greater boundary was
    /// seen before. Gives the boundary that is then kept.
    pub fn update_cache(&mut self, boundary: MonotonicId, version: UpdateVersion) -> (kept: (
        MonotonicId,
        Option<UpdateVersion>,
    ))
        ensures
            final(self)@ == old(self)@.updated(boundary.id, version@),
            boundary_read_view(kept) == (
                (final(self)@.cache->0).0,
                Some((final(self)@.cache->0).1),
            ),
    {
        if let Some((cached, cached_version)) = &self.cache {
            if cached.id > boundary.id {
                return (*cached, Some(cached_version.duplicate()));
            }
        }
        self.cache = Some((boundary, version.duplicate()));
        (boundary, Some(version))
    }

    /// Starts reading the boundary.
    pub fn read_boundary(&self) -> (request: GetRequest)
        ensures
            request@ == self@.read_request(),
    {
        let if_none_match: Option<String> = match &self.cache {
            Some((_, version)) => clone_text(&version.e_tag),
            None => None,
        };
        GetRequest { path: self.filepath.clone(), if_none_match }
    }

    /// Ends reading the boundary, after the store's reply.
    pub fn read_boundary_on_get<E>(&mut self, reply: GetReply<E>) -> (read: Result<
        (MonotonicId, Option<UpdateVersion>),
        TransactionalObjectError<E>,
    >)
        ensures
            (final(self)@, boundary_result_view(read)) == boundary_read(
                old(self)@,
                get_reply_view(reply),
            ),
    {
        match reply {
            Ok(object) => match decode_boundary(&object.bytes) {
                Some(boundary) => Ok(self.update_cache(boundary, object.version)),
                None => Err(TransactionalObjectError::InvalidObjectState),
            },
            Err(e) => match e.kind {
                StoreErrorKind::NotModified => match &self.cache {
                    Some((boundary, version)) => Ok((*boundary, Some(version.duplicate()))),
                    None => Err(TransactionalObjectError::InvalidObjectState),
                },
                StoreErrorKind::NotFound => Ok((MonotonicId::new(0), None)),
                _ => Err(TransactionalObjectError::ObjectStoreError(e)),
            },
        }
    }

    /// Checks that `id` lies above `boundary`.
    pub fn check_boundary<E>(id: MonotonicId, boundary: MonotonicId) -> (result: Result<
        (),
        TransactionalObjectError<E>,
    >)
        ensures
            result == checked::<E>(id.id, boundary.id),
    {
        if id.id <= boundary.id {
            return Err(TransactionalObjectError::ObjectVersionExists);
        }
        Ok(())
    }

    /// Starts checking that `id` lies above the boundary.
    pub fn check<E>(&self, id: MonotonicId) -> (step: CheckStep<E>)
        ensures
            step@ == check_start::<E>(self@, id.id),
    {
        if let Some((boundary, _)) = &self.cache {
            let result: Result<(), TransactionalObjectError<E>> = Self::check_boundary(
                id,
                *boundary,
            );
            if result.is_err() {
                return CheckStep::Done(result);
            }
        }
        CheckStep::Get(self.read_boundary())
    }

    /// Ends checking that `id` lies above the boundary, after the reply to reading it.
    pub fn check_on_get<E>(&mut self, id: MonotonicId, reply: GetReply<E>) -> (result: Result<
        (),
        TransactionalObjectError<E>,
    >)
        ensures
            (final(self)@, result) == check_on_get(old(self)@, id.id, get_reply_view(reply)),
    {
        match self.read_boundary_on_get(reply) {
            Ok((boundary, _)) => Self::check_boundary(id, boundary),
            Err(e) => Err(e),
        }
    }

    /// Goes on with an advance to `target` from the boundary that was read.
    fn advance_from<E>(
        &self,
        target: MonotonicId,
        current: (MonotonicId, Option<UpdateVersion>),
    ) -> (step: AdvanceStep<E>)
        ensures
            step@ == advance_from::<E>(self@, target.id, boundary_read_view(current)),
    {
        if current.0.id >= target.id {
            return AdvanceStep::Done(Ok(()));
        }
        let mode: PutMode = match current.1 {
            Some(version) => PutMode::Update(version),
            None => PutMode::Create,
        };
        let request = PutRequest {
            path: self.filepath.clone(),
            payload: encode_boundary(target),
            mode,
        };
        AdvanceStep::Put { request, pending: PendingAdvancePut { target } }
    }

    /// Starts moving the boundary up to `boundary`.
    pub fn advance<E>(&self, boundary: MonotonicId) -> (step: AdvanceStep<E>)
        ensures
            step@ == advance_start::<E>(self@, boundary.id),
    {
        match &self.cache {
            Some((cached, version)) => {
                self.advance_from(boundary, (*cached, Some(version.duplicate())))
            },
            None => {
                AdvanceStep::Get {
                    request: self.read_boundary(),
                    pending: PendingAdvanceRead { target: boundary, refresh: false },
                }
            },
        }
    }

    /// Goes on moving the boundary, after the reply to reading it.
    pub fn advance_on_get<E>(&mut self, pending: PendingAdvanceRead, reply: GetReply<E>) -> (step:
        AdvanceStep<E>)
        ensures
            (final(self)@, step@) == advance_on_get(old(self)@, pending, get_reply_view(reply)),
    {
        match self.read_boundary_on_get(reply) {
            Ok(current) => {
                if pending.refresh {
                    self.advance(pending.target)
                } else {
                    self.advance_from(pending.target, current)
                }
            },
            Err(e) => AdvanceStep::Done(Err(e)),
        }
    }

    /// Goes on moving the boundary, after the reply to writing it.
    pub fn advance_on_put<E>(&mut self, pending: PendingAdvancePut, reply: PutReply<E>) -> (step:
        AdvanceStep<E>)
        ensures
            (final(self)@, step@) == advance_on_put(old(self)@, pending, put_reply_view(reply)),
    {
        match reply {
            Ok(version) => {
                self.update_cache(pending.target, version);
                AdvanceStep::Done(Ok(()))
            },
            Err(e) => match e.kind {
                StoreErrorKind::AlreadyExists | StoreErrorKind::Precondition => {
                    AdvanceStep::Get {
                        request: self.read_boundary(),
                        pending: PendingAdvanceRead { target: pending.target, refresh: true },
                    }
                },
                _ => AdvanceStep::Done(Err(TransactionalObjectError::ObjectStoreError(e))),
            },
        }
    }
}

} // verus!

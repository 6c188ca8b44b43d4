//! What holds of checking an id against the boundary and of moving the boundary, over all their
//! steps.
use crate::boundary::{
    advance_on_get, advance_on_put, advance_start, boundary_bytes, boundary_read, check_on_get,
    check_start, checked, lemma_boundary_is_read_back, parsed_boundary, AdvanceStepView,
    BoundaryView, CheckStepView, PendingAdvancePut, PendingAdvanceRead,
};
use crate::error::{StoreError, StoreErrorKind, TransactionalObjectError};
use crate::id::MonotonicId;
use crate::store::{
    FetchedObjectView, GetRequestView, PutModeView, PutRequestView, UpdateVersionView,
};
use vstd::prelude::*;

verus! {

/// The boundary that the file `file` holds; `0` where there is no file.
pub open spec fn boundary_of(file: Option<FetchedObjectView>) -> u64 {
    match file {
        Some(object) => parsed_boundary(object.bytes)->0,
        None => 0,
    }
}

/// Whether `file` is missing, or holds a boundary.
pub open spec fn holds_boundary(file: Option<FetchedObjectView>) -> bool {
    file matches Some(object) ==> parsed_boundary(object.bytes) is Some
}

/// Whether what was seen of the boundary once stood in the file that is now `file`: the boundary
/// has not moved back since, and a version, or an entity tag, stands for one state of the file.
pub open spec fn truly_seen(at: BoundaryView, file: Option<FetchedObjectView>) -> bool {
    at.cache matches Some((boundary, version)) ==> {
        &&& file is Some
        &&& boundary <= boundary_of(file)
        &&& version == file->0.version ==> boundary == boundary_of(file)
        &&& version.e_tag is Some && version.e_tag == file->0.version.e_tag ==> version
            == file->0.version
    }
}

/// The reply to reading `file`.
pub open spec fn read_reply<E>(
    file: Option<FetchedObjectView>,
    request: GetRequestView,
    source: E,
) -> Result<FetchedObjectView, StoreError<E>> {
    match file {
        None => Err(StoreError { kind: StoreErrorKind::NotFound, source }),
        Some(object) => if request.if_none_match is Some && object.version.e_tag
            == request.if_none_match {
            Err(StoreError { kind: StoreErrorKind::NotModified, source })
        } else {
            Ok(object)
        },
    }
}

/// The file after a request to write it and the reply, where `stamp` is the version that the store
/// gives to what is written.
pub open spec fn write_reply<E>(
    file: Option<FetchedObjectView>,
    request: PutRequestView,
    stamp: UpdateVersionView,
    source: E,
) -> (Option<FetchedObjectView>, Result<UpdateVersionView, StoreError<E>>) {
    let written = Some(FetchedObjectView { version: stamp, bytes: request.payload });
    match (request.mode, file) {
        (PutModeView::Create, None) => (written, Ok(stamp)),
        (PutModeView::Create, Some(_)) => (
            file,
            Err(StoreError { kind: StoreErrorKind::AlreadyExists, source }),
        ),
        (PutModeView::Update(version), Some(object)) => if object.version == version {
            (written, Ok(stamp))
        } else {
            (file, Err(StoreError { kind: StoreErrorKind::Precondition, source }))
        },
        (PutModeView::Update(_), None) => (
            file,
            Err(StoreError { kind: StoreErrorKind::Precondition, source }),
        ),
    }
}

/// How an advance ended: the file, what is then known of the boundary, and the result.
pub struct AdvanceRun<E> {
    pub file: Option<FetchedObjectView>,
    pub at: BoundaryView,
    pub result: Result<(), TransactionalObjectError<E>>,
}

/// How an advance ends that is about to do `step`, where nobody else writes the file; none where
/// it takes more than `fuel` requests.
pub open spec fn run_advance<E>(
    file: Option<FetchedObjectView>,
    at: BoundaryView,
    step: AdvanceStepView<E>,
    stamp: UpdateVersionView,
    source: E,
    fuel: nat,
) -> Option<AdvanceRun<E>>
    decreases fuel,
{
    match step {
        AdvanceStepView::Done(result) => Some(AdvanceRun { file, at, result }),
        AdvanceStepView::Get { request, pending } => if fuel == 0 {
            None
        } else {
            let (now, next) = advance_on_get(at, pending, read_reply(file, request, source));
            run_advance(file, now, next, stamp, source, (fuel - 1) as nat)
        },
        AdvanceStepView::Put { request, pending } => if fuel == 0 {
            None
        } else {
            let (changed, reply) = write_reply(file, request, stamp, source);
            let (now, next) = advance_on_put(at, pending, reply);
            run_advance(changed, now, next, stamp, source, (fuel - 1) as nat)
        },
    }
}

/// The greater of two boundaries.
pub open spec fn greater(a: u64, b: u64) -> u64 {
    if a >= b {
        a
    } else {
        b
    }
}

/// Writing from an up-to-date view of the file succeeds.
proof fn lemma_write_succeeds<E>(
    file: Option<FetchedObjectView>,
    at: BoundaryView,
    target: u64,
    version: Option<UpdateVersionView>,
    stamp: UpdateVersionView,
    source: E,
    fuel: nat,
)
    requires
        version == match file {
            Some(object) => Some(object.version),
            None => None,
        },
        at.cache matches Some((boundary, _)) ==> boundary <= target,
        fuel >= 1,
    ensures
        ({
            let step = AdvanceStepView::<E>::Put {
                request: at.write_request(target, version),
                pending: PendingAdvancePut { target: MonotonicId { id: target } },
            };
            let run = run_advance(file, at, step, stamp, source, fuel);
            &&& run is Some
            &&& run->0.result == Ok::<(), TransactionalObjectError<E>>(())
            &&& run->0.file == Some(
                FetchedObjectView { version: stamp, bytes: boundary_bytes(target) },
            )
            &&& run->0.at == BoundaryView { cache: Some((target, stamp)), ..at }
        }),
{
    reveal_with_fuel(run_advance, 3);
}

/// Where nobody else writes it, the boundary can be moved: an advance succeeds, and the file then
/// holds the greater of the boundary that it held and the one asked for. What is then known of
/// the boundary is true, and is no less than the one asked for, save that a missing file is left
/// missing, as `0`, where `0` was asked for.
pub proof fn lemma_advance_moves_boundary<E>(
    file: Option<FetchedObjectView>,
    at: BoundaryView,
    target: u64,
    stamp: UpdateVersionView,
    source: E,
    fuel: nat,
)
    requires
        holds_boundary(file),
        truly_seen(at, file),
        fuel >= 3,
    ensures
        ({
            let run = run_advance(file, at, advance_start::<E>(at, target), stamp, source, fuel);
            &&& run is Some
            &&& run->0.result == Ok::<(), TransactionalObjectError<E>>(())
            &&& holds_boundary(run->0.file)
            &&& boundary_of(run->0.file) == greater(boundary_of(file), target)
            &&& truly_seen(run->0.at, run->0.file)
            &&& target > 0 ==> run->0.at.cache is Some
            &&& run->0.at.cache matches Some((known, _)) ==> known >= target
        }),
{
    lemma_boundary_is_read_back(target);
    match at.cache {
        Some((boundary, version)) => {
            if boundary < target {
                if version == file->0.version {
                    lemma_write_succeeds(file, at, target, Some(version), stamp, source, fuel);
                } else {
                    reveal_with_fuel(run_advance, 3);
                    let fresh = at.updated(boundary_of(file), file->0.version);
                    assert(boundary_read(
                        at,
                        read_reply(file, at.read_request(), source),
                    ).0 == fresh);
                    assert(fresh.cache == Some((boundary_of(file), file->0.version)));
                    if boundary_of(file) < target {
                        lemma_write_succeeds(
                            file,
                            fresh,
                            target,
                            Some(file->0.version),
                            stamp,
                            source,
                            (fuel - 2) as nat,
                        );
                    }
                }
            }
        },
        None => {
            reveal_with_fuel(run_advance, 2);
            let fresh = match file {
                Some(object) => at.updated(boundary_of(file), object.version),
                None => at,
            };
            let version = match file {
                Some(object) => Some(object.version),
                None => None,
            };
            if boundary_of(file) < target {
                lemma_write_succeeds(
                    file,
                    fresh,
                    target,
                    version,
                    stamp,
                    source,
                    (fuel - 1) as nat,
                );
            }
        },
    }
}

/// How a check ends that is about to do `step`, where the boundary is in `file`.
pub open spec fn run_check<E>(
    file: Option<FetchedObjectView>,
    at: BoundaryView,
    id: u64,
    step: CheckStepView<E>,
    source: E,
) -> Result<(), TransactionalObjectError<E>> {
    match step {
        CheckStepView::Done(result) => result,
        CheckStepView::Get(request) => check_on_get(
            at,
            id,
            read_reply(file, request, source),
        ).1,
    }
}

/// A check tells whether the id lies above the boundary that the file holds, whatever was seen of
/// the boundary before.
pub proof fn lemma_check_compares_with_file<E>(
    file: Option<FetchedObjectView>,
    at: BoundaryView,
    id: u64,
    source: E,
)
    requires
        holds_boundary(file),
        truly_seen(at, file),
    ensures
        run_check(file, at, id, check_start::<E>(at, id), source) == checked::<E>(
            id,
            boundary_of(file),
        ),
{
}

/// Of a missing file, a check takes the boundary for `0`, even where another one was seen before,
/// except that ids at or below that one are refused.
pub proof fn lemma_check_of_missing_file<E>(at: BoundaryView, id: u64, source: E)
    ensures
        run_check(None, at, id, check_start::<E>(at, id), source) == checked::<E>(
            id,
            match at.cache {
                Some((boundary, _)) => boundary,
                None => 0,
            },
        ),
{
}

/// Once the boundary was moved to `target`, every check, by whoever it is, refuses the ids at or
/// below it; and it accepts the ids above both `target` and the boundary as it was.
pub proof fn lemma_check_after_advance<E>(
    file: Option<FetchedObjectView>,
    at: BoundaryView,
    target: u64,
    stamp: UpdateVersionView,
    source: E,
    fuel: nat,
    other: BoundaryView,
    id: u64,
)
    requires
        holds_boundary(file),
        truly_seen(at, file),
        fuel >= 3,
        truly_seen(
            other,
            run_advance(file, at, advance_start::<E>(at, target), stamp, source, fuel)->0.file,
        ),
    ensures
        ({
            let run = run_advance(file, at, advance_start::<E>(at, target), stamp, source, fuel);
            let result = run_check(
                run->0.file,
                other,
                id,
                check_start::<E>(other, id),
                source,
            );
            if id <= greater(boundary_of(file), target) {
                result == Err::<(), _>(TransactionalObjectError::<E>::ObjectVersionExists)
            } else {
                result == Ok::<(), TransactionalObjectError<E>>(())
            }
        }),
{
    lemma_advance_moves_boundary(file, at, target, stamp, source, fuel);
    let run = run_advance(file, at, advance_start::<E>(at, target), stamp, source, fuel);
    lemma_check_compares_with_file(run->0.file, other, id, source);
}

/// Whether an advance that is at `step` writes only over a boundary that it has seen, and only a
/// greater one.
pub open spec fn writes_up<E>(at: BoundaryView, step: AdvanceStepView<E>) -> bool {
    step matches AdvanceStepView::Put { request, pending } ==> {
        &&& request.path == at.path
        &&& request.payload == boundary_bytes(pending.target.id)
        &&& match request.mode {
            PutModeView::Update(version) => at.cache matches Some((boundary, seen)) && seen
                == version && boundary < pending.target.id,
            PutModeView::Create => pending.target.id > 0,
        }
    }
}

/// Every write of an advance is one over a lesser boundary that was seen, or one that makes the
/// file.
pub proof fn lemma_advance_writes_up<E>(
    at: BoundaryView,
    target: u64,
    read: PendingAdvanceRead,
    put: PendingAdvancePut,
    got: Result<FetchedObjectView, StoreError<E>>,
    written: Result<UpdateVersionView, StoreError<E>>,
)
    ensures
        writes_up(at, advance_start::<E>(at, target)),
        writes_up(advance_on_get(at, read, got).0, advance_on_get(at, read, got).1),
        writes_up(advance_on_put(at, put, written).0, advance_on_put(at, put, written).1),
{
}

/// Whatever others do meanwhile, the boundary never moves back: a write that the store takes
/// replaces a lesser boundary.
pub proof fn lemma_boundary_never_moves_back<E>(
    at: BoundaryView,
    request: PutRequestView,
    pending: PendingAdvancePut,
    file: Option<FetchedObjectView>,
    stamp: UpdateVersionView,
    source: E,
)
    requires
        writes_up(at, AdvanceStepView::<E>::Put { request, pending }),
        truly_seen(at, file),
        holds_boundary(file),
    ensures
        ({
            let (changed, reply) = write_reply(file, request, stamp, source);
            &&& holds_boundary(changed)
            &&& boundary_of(changed) >= boundary_of(file)
            &&& reply is Ok ==> boundary_of(changed) == pending.target.id && boundary_of(changed)
                > boundary_of(file)
            &&& reply is Err ==> changed == file
        }),
{
    lemma_boundary_is_read_back(pending.target.id);
}

/// Whether a boundary no less than `target` was seen; `0` needs not be.
pub open spec fn reached(at: BoundaryView, target: u64) -> bool {
    target == 0 || (at.cache matches Some((boundary, _)) && boundary >= target)
}

/// Whatever others do meanwhile, an advance that succeeds has seen a boundary no less than the one
/// it was asked for.
pub proof fn lemma_advance_success_is_seen<E>(
    at: BoundaryView,
    target: u64,
    read: PendingAdvanceRead,
    put: PendingAdvancePut,
    got: Result<FetchedObjectView, StoreError<E>>,
    written: Result<UpdateVersionView, StoreError<E>>,
)
    ensures
        advance_start::<E>(at, target) == AdvanceStepView::<E>::Done(Ok(())) ==> reached(
            at,
            target,
        ),
        advance_on_get(at, read, got).1 == AdvanceStepView::<E>::Done(Ok(())) ==> reached(
            advance_on_get(at, read, got).0,
            read.target.id,
        ),
        advance_on_put(at, put, written).1 == AdvanceStepView::<E>::Done(Ok(())) ==> reached(
            advance_on_put(at, put, written).0,
            put.target.id,
        ),
{
}

/// What was truly seen of the boundary stays so when another process moves it up: where the file is
/// then another version, with an entity tag that was not seen before.
pub proof fn lemma_truly_seen_survives_a_write(
    at: BoundaryView,
    file: Option<FetchedObjectView>,
    later: Option<FetchedObjectView>,
)
    requires
        truly_seen(at, file),
        later is Some,
        boundary_of(later) >= boundary_of(file),
        at.cache matches Some((_, version)) ==> {
            &&& version != later->0.version
            &&& version.e_tag is Some ==> version.e_tag != later->0.version.e_tag
        },
    ensures
        truly_seen(at, later),
{
}

/// What was seen of the boundary never moves back.
pub proof fn lemma_seen_boundary_never_moves_back<E>(
    at: BoundaryView,
    read: PendingAdvanceRead,
    put: PendingAdvancePut,
    got: Result<FetchedObjectView, StoreError<E>>,
    written: Result<UpdateVersionView, StoreError<E>>,
)
    requires
        at.cache is Some,
    ensures
        boundary_read(at, got).0.cache matches Some((now, _)) && now >= (at.cache->0).0,
        advance_on_get(at, read, got).0.cache matches Some((now, _)) && now >= (at.cache->0).0,
        advance_on_put(at, put, written).0.cache matches Some((now, _)) && now >= (at.cache->0).0,
{
}

} // verus!

//! Versioned objects, their boundary and the collection of compactions files, on an object store
//! in memory.
use futures::executor::block_on;
use futures::StreamExt;
use object_store::memory::InMemory;
use object_store::path::Path;
use object_store::{GetOptions, ObjectStore, ObjectStoreExt, PutOptions, PutPayload};
use slatedb_objects::boundary::{AdvanceStep, CheckStep, ObjectStoreBoundaryObject};
use slatedb_objects::compactions_gc::{CompactionsGcTask, CompactionsStep};
use slatedb_objects::error::{StoreError, StoreErrorKind, TransactionalObjectError};
use slatedb_objects::gc::{Collected, GarbageCollectorDirectoryOptions};
use slatedb_objects::id::{IdBound, MonotonicId};
use slatedb_objects::latest::{CachedLatest, PendingGet, ReadLatestStep};
use slatedb_objects::protocol::{
    ObjectStoreSequencedStorageProtocol, ProbeStep, ReadVersionStep,
};
use slatedb_objects::store::{
    FetchedObject, GetReply, GetRequest, IdentifiedObjectMetadata, ListReply, ObjectMetadata,
    PutMode, PutReply, PutRequest, UpdateVersion,
};
use slatedb_objects::time::{Duration, Timestamp};
use std::cell::{Cell, RefCell};

type Failure = TransactionalObjectError<String>;
type Protocol = ObjectStoreSequencedStorageProtocol<ObjectStoreBoundaryObject>;

fn failure(e: object_store::Error) -> StoreError<String> {
    let kind = match &e {
        object_store::Error::NotFound { .. } => StoreErrorKind::NotFound,
        object_store::Error::NotModified { .. } => StoreErrorKind::NotModified,
        object_store::Error::AlreadyExists { .. } => StoreErrorKind::AlreadyExists,
        object_store::Error::Precondition { .. } => StoreErrorKind::Precondition,
        _ => StoreErrorKind::Other,
    };
    StoreError { kind, source: e.to_string() }
}

fn error_of(kind: StoreErrorKind) -> StoreError<String> {
    StoreError { kind, source: "injected".to_string() }
}

/// An object store in memory that counts its requests, and can be told what to list.
struct CountingStore {
    inner: InMemory,
    gets: Cell<usize>,
    if_none_match_gets: Cell<usize>,
    lists: Cell<usize>,
    scripted_lists: RefCell<Vec<Vec<ObjectMetadata>>>,
}

impl CountingStore {
    fn new() -> Self {
        CountingStore {
            inner: InMemory::new(),
            gets: Cell::new(0),
            if_none_match_gets: Cell::new(0),
            lists: Cell::new(0),
            scripted_lists: RefCell::new(Vec::new()),
        }
    }

    fn get(&self, request: &GetRequest) -> GetReply<String> {
        self.gets.set(self.gets.get() + 1);
        if request.if_none_match.is_some() {
            self.if_none_match_gets.set(self.if_none_match_gets.get() + 1);
        }
        let options = GetOptions {
            if_none_match: request.if_none_match.clone(),
            ..GetOptions::default()
        };
        let path = Path::parse(&request.path).unwrap();
        let found = block_on(self.inner.get_opts(&path, options)).map_err(failure)?;
        let version = UpdateVersion {
            e_tag: found.meta.e_tag.clone(),
            version: found.meta.version.clone(),
        };
        let bytes = block_on(found.bytes()).map_err(failure)?.to_vec();
        Ok(FetchedObject { version, bytes })
    }

    fn put(&self, request: PutRequest) -> PutReply<String> {
        let mode = match request.mode {
            PutMode::Create => object_store::PutMode::Create,
            PutMode::Update(version) => {
                object_store::PutMode::Update(object_store::UpdateVersion {
                    e_tag: version.e_tag,
                    version: version.version,
                })
            }
        };
        let path = Path::parse(&request.path).unwrap();
        let payload = PutPayload::from(request.payload);
        let result = block_on(self.inner.put_opts(&path, payload, PutOptions::from(mode)))
            .map_err(failure)?;
        Ok(UpdateVersion { e_tag: result.e_tag, version: result.version })
    }

    fn list(&self, prefix: &str) -> ListReply<String> {
        self.lists.set(self.lists.get() + 1);
        if !self.scripted_lists.borrow().is_empty() {
            return Ok(self.scripted_lists.borrow_mut().remove(0));
        }
        let path = Path::parse(prefix).unwrap();
        let metas: Vec<_> = block_on(self.inner.list(Some(&path)).collect());
        let mut listing = Vec::new();
        for meta in metas {
            let meta = meta.map_err(failure)?;
            listing.push(metadata(
                meta.location.as_ref(),
                timestamp(meta.last_modified),
                meta.size,
            ));
        }
        Ok(listing)
    }

    fn delete(&self, path: &str) -> Result<(), StoreError<String>> {
        block_on(self.inner.delete(&Path::parse(path).unwrap())).map_err(failure)
    }

    fn raw(&self, path: &str) -> String {
        let bytes = block_on(block_on(self.inner.get(&Path::from(path))).unwrap().bytes()).unwrap();
        std::str::from_utf8(&bytes).unwrap().to_string()
    }

    fn put_raw(&self, path: &str, bytes: &[u8]) {
        block_on(self.inner.put(&Path::from(path), PutPayload::from(bytes.to_vec()))).unwrap();
    }
}

fn timestamp(at: chrono::DateTime<chrono::Utc>) -> Timestamp {
    Timestamp::new(at.timestamp(), at.timestamp_subsec_nanos()).unwrap()
}

fn metadata(location: &str, last_modified: Timestamp, size: u64) -> ObjectMetadata {
    ObjectMetadata { location: location.to_string(), last_modified, size }
}

fn hours_from_now(hours: i64) -> Timestamp {
    timestamp(chrono::Utc::now() + chrono::TimeDelta::hours(hours))
}

#[derive(Clone, Debug, PartialEq, Eq)]
struct TestVal {
    epoch: u64,
    payload: u64,
}

fn val(payload: u64) -> TestVal {
    TestVal { epoch: 1, payload }
}

fn encode(value: &TestVal) -> Vec<u8> {
    format!("{}:{}", value.epoch, value.payload).into_bytes()
}

fn decode(bytes: &[u8]) -> Result<TestVal, String> {
    let text = std::str::from_utf8(bytes).map_err(|e| e.to_string())?;
    let (epoch, payload) = text.split_once(':').ok_or("no separator".to_string())?;
    Ok(TestVal {
        epoch: epoch.parse().map_err(|_| "bad epoch".to_string())?,
        payload: payload.parse().map_err(|_| "bad payload".to_string())?,
    })
}

fn check(
    store: &CountingStore,
    boundary: &mut ObjectStoreBoundaryObject,
    id: u64,
) -> Result<(), Failure> {
    match boundary.check(MonotonicId::new(id)) {
        CheckStep::Done(result) => result,
        CheckStep::Get(request) => boundary.check_on_get(MonotonicId::new(id), store.get(&request)),
    }
}

fn advance(
    store: &CountingStore,
    boundary: &mut ObjectStoreBoundaryObject,
    id: u64,
) -> Result<(), Failure> {
    let step = boundary.advance(MonotonicId::new(id));
    finish_advance(store, boundary, step)
}

fn read_latest(
    store: &CountingStore,
    protocol: &mut Protocol,
) -> Result<Option<(MonotonicId, TestVal)>, Failure> {
    let mut step = protocol.try_read_latest_unchecked();
    loop {
        step = match step {
            ReadLatestStep::Get { request, pending } => {
                protocol.try_read_latest_unchecked_on_get(pending, store.get(&request))
            }
            ReadLatestStep::List { prefix } => {
                protocol.try_read_latest_unchecked_on_list(store.list(&prefix))
            }
            ReadLatestStep::Decode(pending) => {
                let decoded = decode(&pending.version.bytes);
                return protocol.try_read_latest_unchecked_on_decoded(pending, decoded);
            }
            ReadLatestStep::Done(result) => return result,
        };
    }
}

fn read(store: &CountingStore, protocol: &Protocol, id: u64) -> Result<Option<TestVal>, Failure> {
    let request = protocol.try_read_unchecked(MonotonicId::new(id));
    match Protocol::try_read_unchecked_on_get(store.get(&request)) {
        ReadVersionStep::Decode(bytes) => Protocol::try_read_unchecked_on_decoded(decode(&bytes)),
        ReadVersionStep::Done(result) => result,
    }
}

fn check_new_version(
    store: &CountingStore,
    protocol: &mut Protocol,
    id: MonotonicId,
) -> Result<(), Failure> {
    match protocol.check(id) {
        CheckStep::Done(result) => result,
        CheckStep::Get(request) => protocol.check_on_get(id, store.get(&request)),
    }
}

fn write(
    store: &CountingStore,
    protocol: &mut Protocol,
    current: Option<MonotonicId>,
    value: &TestVal,
) -> Result<MonotonicId, Failure> {
    let (request, pending) = protocol.write_unchecked(current, encode(value));
    check_new_version(store, protocol, pending.id)?;
    protocol.write_unchecked_on_put(pending, store.put(request))
}

fn list(
    store: &CountingStore,
    protocol: &Protocol,
    from: IdBound,
    to: IdBound,
) -> Vec<IdentifiedObjectMetadata<MonotonicId>> {
    let prefix = protocol.list();
    protocol.list_on_list(from, to, store.list(&prefix)).unwrap()
}

fn delete(store: &CountingStore, protocol: &mut Protocol, id: MonotonicId) -> Result<(), Failure> {
    let path = protocol.delete_unchecked(id);
    protocol.delete_unchecked_on_delete(id, store.delete(&path))
}

fn probe_store() -> Protocol {
    ObjectStoreSequencedStorageProtocol::new("root", "test", "val")
}

fn boundary_object(name: &str) -> ObjectStoreBoundaryObject {
    ObjectStoreBoundaryObject::new("root", name)
}

#[test]
fn test_boundary_check_allows_missing_boundary() {
    let store = CountingStore::new();
    let mut boundary = boundary_object("manifest");

    check(&store, &mut boundary, 1).unwrap();
}

#[test]
fn test_boundary_advance_creates_boundary_and_rejects_at_or_below_it() {
    let store = CountingStore::new();
    let mut boundary = boundary_object("manifest");

    advance(&store, &mut boundary, 2).unwrap();

    let err = check(&store, &mut boundary, 2).unwrap_err();
    assert!(matches!(err, TransactionalObjectError::ObjectVersionExists));
    check(&store, &mut boundary, 3).unwrap();

    assert_eq!("2", store.raw("/root/gc/manifest.boundary"));
}

#[test]
fn test_boundary_advance_is_monotonic() {
    let store = CountingStore::new();
    let mut boundary = boundary_object("manifest");

    advance(&store, &mut boundary, 3).unwrap();
    advance(&store, &mut boundary, 2).unwrap();

    let err = check(&store, &mut boundary, 3).unwrap_err();
    assert!(matches!(err, TransactionalObjectError::ObjectVersionExists));

    assert_eq!("3", store.raw("/root/gc/manifest.boundary"));
}

#[test]
fn test_boundary_check_reuses_cache_on_not_modified() {
    let store = CountingStore::new();
    let mut boundary = boundary_object("manifest");

    advance(&store, &mut boundary, 2).unwrap();

    let if_none_match_gets = store.if_none_match_gets.get();
    check(&store, &mut boundary, 3).unwrap();

    assert_eq!(if_none_match_gets + 1, store.if_none_match_gets.get());
}

#[test]
fn test_boundary_check_rejects_from_cache_without_get() {
    let store = CountingStore::new();
    let mut boundary = boundary_object("manifest");

    advance(&store, &mut boundary, 2).unwrap();

    let get_opts_calls = store.gets.get();
    let err = check(&store, &mut boundary, 2).unwrap_err();

    assert!(matches!(err, TransactionalObjectError::ObjectVersionExists));
    assert_eq!(get_opts_calls, store.gets.get());
}

#[test]
fn test_boundary_check_refreshes_cache_when_etag_changes() {
    let store = CountingStore::new();
    let mut first_boundary = boundary_object("manifest");
    let mut second_boundary = boundary_object("manifest");

    advance(&store, &mut first_boundary, 2).unwrap();
    advance(&store, &mut second_boundary, 4).unwrap();

    let err = check(&store, &mut first_boundary, 4).unwrap_err();

    assert!(matches!(err, TransactionalObjectError::ObjectVersionExists));
}

#[test]
fn test_boundary_advance_retries_after_conflicting_boundary_update() {
    let store = CountingStore::new();
    let mut first_boundary = boundary_object("manifest");
    let mut second_boundary = boundary_object("manifest");

    advance(&store, &mut first_boundary, 2).unwrap();
    advance(&store, &mut second_boundary, 3).unwrap();

    advance(&store, &mut first_boundary, 4).unwrap();

    assert_eq!("4", store.raw("/root/gc/manifest.boundary"));
}

#[test]
fn test_boundary_read_returns_zero_when_not_found_get_has_cached_boundary() {
    let mut boundary = boundary_object("manifest");

    let request = boundary.read_boundary();
    assert_eq!(None, request.if_none_match);
    // Another task has seen a boundary before the reply comes in.
    boundary.update_cache(
        MonotonicId::new(2),
        UpdateVersion { e_tag: Some("\"etag\"".to_string()), version: None },
    );

    let (observed_boundary, observed_version) = boundary
        .read_boundary_on_get(Err(error_of(StoreErrorKind::NotFound)))
        .unwrap();
    assert_eq!(MonotonicId::new(0), observed_boundary);
    assert!(observed_version.is_none());
}

#[test]
fn test_list_ranges_sorted() {
    let store = CountingStore::new();
    let mut protocol = probe_store();
    let mut id = write(&store, &mut protocol, None, &TestVal { epoch: 0, payload: 1 }).unwrap();
    for p in 2..=4u64 {
        id = write(&store, &mut protocol, Some(id), &TestVal { epoch: 0, payload: p }).unwrap();
    }

    let all = list(&store, &protocol, IdBound::Unbounded, IdBound::Unbounded);
    assert_eq!(4, all.len());
    assert!(all.windows(2).all(|w| w[0].id < w[1].id));
    assert_eq!(
        Path::from("/root/test/00000000000000000001.val"),
        Path::from(all[0].metadata.location.as_str())
    );
    assert_eq!(
        Path::from("/root/test/00000000000000000004.val"),
        Path::from(all[3].metadata.location.as_str())
    );

    let right_bounded = list(
        &store,
        &protocol,
        IdBound::Unbounded,
        IdBound::Excluded(MonotonicId::new(3)),
    );
    assert_eq!(2, right_bounded.len());
    assert_eq!(1, right_bounded[0].id.id());
    assert_eq!(2, right_bounded[1].id.id());

    let left_bounded = list(
        &store,
        &protocol,
        IdBound::Included(MonotonicId::new(3)),
        IdBound::Unbounded,
    );
    assert_eq!(2, left_bounded.len());
    assert_eq!(3, left_bounded[0].id.id());
    assert_eq!(4, left_bounded[1].id.id());
}

#[test]
fn test_try_read_unchecked_missing_returns_none() {
    let store = CountingStore::new();
    let protocol = probe_store();

    let missing = read(&store, &protocol, 1).unwrap();

    assert!(missing.is_none());
}

#[test]
fn test_try_read_latest_retries_missing_listed_file() {
    let expected = TestVal { epoch: 7, payload: 42 };
    let missing_id = 1u64;
    let present_id = 2u64;

    let store = CountingStore::new();
    store.put_raw(&format!("{:020}.val", present_id), &encode(&expected));
    for id in [missing_id, present_id] {
        store.scripted_lists.borrow_mut().push(vec![metadata(
            &format!("{:020}.val", id),
            timestamp(chrono::Utc::now()),
            0,
        )]);
    }
    let mut protocol = ObjectStoreSequencedStorageProtocol::new_with_boundary(
        "",
        "",
        "val",
        boundary_object("test"),
    );

    let latest = read_latest(&store, &mut protocol).unwrap().unwrap();
    assert_eq!(present_id, latest.0.id());
    assert_eq!(expected, latest.1);
    assert!(
        store.lists.get() >= 2,
        "expected try_read_latest to retry after a missing read"
    );
}

#[test]
fn test_read_latest_after_own_write_needs_no_list() {
    let store = CountingStore::new();
    let mut protocol = probe_store();

    let id = write(&store, &mut protocol, None, &val(1)).unwrap();
    let baseline_lists = store.lists.get();
    for _ in 0..3 {
        let (latest_id, latest) = read_latest(&store, &mut protocol).unwrap().unwrap();
        assert_eq!(id, latest_id);
        assert_eq!(val(1), latest);
    }
    assert_eq!(
        baseline_lists,
        store.lists.get(),
        "stable polls should probe from the write-seeded cache, not LIST"
    );
}

#[test]
fn test_read_latest_probes_forward_over_external_writes() {
    let store = CountingStore::new();
    let mut ours = probe_store();
    let mut theirs = probe_store();

    let mut id = write(&store, &mut ours, None, &val(1)).unwrap();
    read_latest(&store, &mut ours).unwrap().unwrap();
    let baseline_lists = store.lists.get();

    // Another process advances the object a few versions.
    id = write(&store, &mut theirs, Some(id), &val(2)).unwrap();
    id = write(&store, &mut theirs, Some(id), &val(3)).unwrap();

    let (latest_id, latest) = read_latest(&store, &mut ours).unwrap().unwrap();
    assert_eq!(id, latest_id);
    assert_eq!(val(3), latest);
    assert_eq!(
        baseline_lists,
        store.lists.get(),
        "a probe walk should absorb external writes without LIST"
    );
}

#[test]
fn test_read_latest_far_behind_falls_back_to_one_list() {
    let store = CountingStore::new();
    let mut ours = probe_store();
    let mut theirs = probe_store();

    let mut id = write(&store, &mut ours, None, &val(1)).unwrap();
    read_latest(&store, &mut ours).unwrap().unwrap();
    let baseline_lists = store.lists.get();

    for i in 2..=20 {
        id = write(&store, &mut theirs, Some(id), &val(i)).unwrap();
    }

    let (latest_id, latest) = read_latest(&store, &mut ours).unwrap().unwrap();
    assert_eq!(id, latest_id);
    assert_eq!(val(20), latest);
    assert_eq!(
        baseline_lists + 1,
        store.lists.get(),
        "beyond PROBE_LIMIT the read should jump to the tail with one LIST"
    );

    // The fallback reseeds the cache: the next stable poll probes again.
    read_latest(&store, &mut ours).unwrap().unwrap();
    assert_eq!(baseline_lists + 1, store.lists.get());
}

#[test]
fn test_read_latest_survives_anchor_deletion() {
    let store = CountingStore::new();
    let mut ours = probe_store();
    let mut theirs = probe_store();

    let first = write(&store, &mut ours, None, &val(1)).unwrap();
    let second = write(&store, &mut ours, Some(first), &val(2)).unwrap();
    read_latest(&store, &mut ours).unwrap().unwrap();

    // GC (another process) removes the version our cache is anchored on.
    delete(&store, &mut theirs, second).unwrap();

    let (latest_id, latest) = read_latest(&store, &mut ours).unwrap().unwrap();
    assert_eq!(first, latest_id);
    assert_eq!(val(1), latest);
}

/// How many objects and listings a reader asks for that is so many versions behind.
fn requests_when_behind(behind: u64) -> (u64, usize, usize) {
    let store = CountingStore::new();
    let mut ours = probe_store();
    let mut theirs = probe_store();
    let mut id = write(&store, &mut ours, None, &val(1)).unwrap();
    for i in 0..behind {
        id = write(&store, &mut theirs, Some(id), &val(i + 2)).unwrap();
    }
    let (gets, lists) = (store.gets.get(), store.lists.get());
    let (latest_id, latest) = read_latest(&store, &mut ours).unwrap().unwrap();
    assert_eq!(id, latest_id);
    assert_eq!(val(behind + 1), latest);
    (latest_id.id(), store.gets.get() - gets, store.lists.get() - lists)
}

#[test]
fn read_latest_asks_for_as_little_as_it_can() {
    assert_eq!((1, 2, 0), requests_when_behind(0));
    assert_eq!((2, 2, 0), requests_when_behind(1));
    assert_eq!((8, 8, 0), requests_when_behind(7));
    assert_eq!((9, 9, 0), requests_when_behind(8));
    assert_eq!((10, 10, 1), requests_when_behind(9));
    assert_eq!((21, 10, 1), requests_when_behind(20));
}

/// Walks from the anchor of `protocol`, and gives the verdict.
fn probe_latest(
    store: &CountingStore,
    protocol: &mut Protocol,
) -> Result<Option<CachedLatest>, Failure> {
    let (mut request, mut probe) = match protocol.try_probe_latest() {
        Some(started) => started,
        None => return Ok(None),
    };
    loop {
        match protocol.try_probe_latest_on_get(probe, store.get(&request)) {
            ProbeStep::Get { request: next_request, probe: next } => {
                request = next_request;
                probe = next;
            }
            ProbeStep::Done(result) => return result,
        }
    }
}

/// The id that a walk ends at where so many versions lie ahead.
fn probed_when_behind(behind: u64) -> Option<u64> {
    let store = CountingStore::new();
    let mut ours = probe_store();
    let mut theirs = probe_store();
    let mut id = write(&store, &mut ours, None, &val(1)).unwrap();
    for i in 0..behind {
        id = write(&store, &mut theirs, Some(id), &val(i + 2)).unwrap();
    }
    let latest = probe_latest(&store, &mut ours).unwrap();
    assert_eq!(0, store.lists.get());
    latest.map(|version| {
        assert_eq!(encode(&val(behind + 1)), version.bytes);
        version.id.id()
    })
}

#[test]
fn probe_finds_the_latest_up_to_its_limit() {
    assert_eq!(Some(1), probed_when_behind(0));
    assert_eq!(Some(2), probed_when_behind(1));
    assert_eq!(Some(8), probed_when_behind(7));
    assert_eq!(Some(9), probed_when_behind(8));
    assert_eq!(None, probed_when_behind(9));
    assert_eq!(None, probed_when_behind(20));
}

#[test]
fn probe_has_no_verdict_without_an_anchor() {
    let store = CountingStore::new();
    let mut protocol = probe_store();
    assert!(probe_latest(&store, &mut protocol).unwrap().is_none());
    let id = write(&store, &mut protocol, None, &val(1)).unwrap();
    let mut theirs = probe_store();
    delete(&store, &mut theirs, id).unwrap();
    assert!(probe_latest(&store, &mut protocol).unwrap().is_none());
    assert_eq!(0, store.lists.get());
}

#[test]
fn read_latest_starts_cold_with_one_list() {
    let store = CountingStore::new();
    let mut writer = probe_store();
    write(&store, &mut writer, None, &val(5)).unwrap();
    store.gets.set(0);

    let mut reader = probe_store();
    let (id, value) = read_latest(&store, &mut reader).unwrap().unwrap();
    assert_eq!((1, val(5)), (id.id(), value));
    assert_eq!((1, 1), (store.gets.get(), store.lists.get()));
}

#[test]
fn read_latest_of_an_empty_directory_is_none() {
    let store = CountingStore::new();
    let mut protocol = probe_store();
    assert!(read_latest(&store, &mut protocol).unwrap().is_none());
    assert_eq!((0, 1), (store.gets.get(), store.lists.get()));

    // All versions are deleted from under a reader that has seen one.
    let id = write(&store, &mut protocol, None, &val(1)).unwrap();
    let mut theirs = probe_store();
    delete(&store, &mut theirs, id).unwrap();
    assert!(read_latest(&store, &mut protocol).unwrap().is_none());
}

#[test]
fn read_latest_goes_on_where_only_the_anchor_is_gone() {
    let store = CountingStore::new();
    let mut ours = probe_store();
    let mut theirs = probe_store();
    let first = write(&store, &mut ours, None, &val(1)).unwrap();
    let second = write(&store, &mut theirs, Some(first), &val(2)).unwrap();
    delete(&store, &mut theirs, first).unwrap();

    let lists = store.lists.get();
    let (id, value) = read_latest(&store, &mut ours).unwrap().unwrap();
    assert_eq!((second, val(2)), (id, value));
    assert_eq!(lists, store.lists.get());
}

#[test]
fn read_latest_refreshes_a_version_with_another_tag() {
    let store = CountingStore::new();
    let mut protocol = probe_store();
    write(&store, &mut protocol, None, &val(1)).unwrap();
    store.put_raw("root/test/00000000000000000001.val", &encode(&val(9)));
    let (id, value) = read_latest(&store, &mut protocol).unwrap().unwrap();
    assert_eq!((1, val(9)), (id.id(), value));
}

#[test]
fn write_of_an_existing_version_is_refused() {
    let store = CountingStore::new();
    let mut ours = probe_store();
    let mut theirs = probe_store();
    write(&store, &mut ours, None, &val(1)).unwrap();
    let err = write(&store, &mut theirs, None, &val(2)).unwrap_err();
    assert!(matches!(err, TransactionalObjectError::ObjectVersionExists));
    assert_eq!("1:1", store.raw("root/test/00000000000000000001.val"));
}

#[test]
fn write_below_the_boundary_is_refused() {
    let store = CountingStore::new();
    let mut protocol = probe_store();
    let mut boundary = boundary_object("test");
    advance(&store, &mut boundary, 1).unwrap();
    let err = write(&store, &mut protocol, None, &val(1)).unwrap_err();
    assert!(matches!(err, TransactionalObjectError::ObjectVersionExists));
    let id = write(&store, &mut protocol, Some(MonotonicId::new(1)), &val(2)).unwrap();
    assert_eq!(2, id.id());
}

#[test]
fn write_failure_of_the_store_is_passed_on() {
    let mut protocol = probe_store();
    let (request, pending) = protocol.write_unchecked(Some(MonotonicId::new(41)), vec![7]);
    assert_eq!("root/test/00000000000000000042.val", request.path);
    assert_eq!(vec![7], request.payload);
    assert!(matches!(request.mode, PutMode::Create));
    let reply: PutReply<String> = Err(error_of(StoreErrorKind::Precondition));
    let err = protocol.write_unchecked_on_put(pending, reply).unwrap_err();
    match err {
        TransactionalObjectError::ObjectStoreError(e) => {
            assert_eq!((StoreErrorKind::Precondition, "injected"), (e.kind, e.source.as_str()))
        }
        _ => panic!("expected the store's failure"),
    }
    // Nothing was seen by that.
    assert!(protocol.try_probe_latest().is_none());
}

#[test]
fn write_is_read_back() {
    let store = CountingStore::new();
    let mut protocol = probe_store();
    let id = write(&store, &mut protocol, None, &val(3)).unwrap();
    assert_eq!(Some(val(3)), read(&store, &protocol, id.id()).unwrap());
    let next = write(&store, &mut protocol, Some(id), &val(4)).unwrap();
    assert_eq!(Some((next, val(4))), read_latest(&store, &mut protocol).unwrap());
    assert_eq!(Some(val(3)), read(&store, &protocol, id.id()).unwrap());
}

#[test]
fn read_of_bad_contents_is_a_callback_error() {
    let store = CountingStore::new();
    let mut protocol = probe_store();
    store.put_raw("root/test/00000000000000000003.val", b"no value");
    let err = read_latest(&store, &mut protocol).unwrap_err();
    assert!(matches!(err, TransactionalObjectError::CallbackError(e) if e == "no separator"));
    let err = read(&store, &protocol, 3).unwrap_err();
    assert!(matches!(err, TransactionalObjectError::CallbackError(_)));
    // What could not be decoded is not remembered.
    assert!(protocol.try_probe_latest().is_none());
}

#[test]
fn read_failures_of_the_store_are_passed_on() {
    let mut protocol = probe_store();
    let reply: GetReply<String> = Err(error_of(StoreErrorKind::Other));
    match Protocol::try_read_unchecked_on_get::<TestVal, String>(reply) {
        ReadVersionStep::Done(Err(TransactionalObjectError::ObjectStoreError(e))) => {
            assert_eq!(StoreErrorKind::Other, e.kind)
        }
        _ => panic!("expected the store's failure"),
    }
    let reply: ListReply<String> = Err(error_of(StoreErrorKind::NotFound));
    match protocol.try_read_latest_unchecked_on_list::<TestVal, String>(reply) {
        ReadLatestStep::Done(Err(TransactionalObjectError::ObjectStoreError(e))) => {
            assert_eq!(StoreErrorKind::NotFound, e.kind)
        }
        _ => panic!("expected the store's failure"),
    }
    let pending = PendingGet::Listed(MonotonicId::new(1));
    let reply: GetReply<String> = Err(error_of(StoreErrorKind::Other));
    match protocol.try_read_latest_unchecked_on_get::<TestVal, String>(pending, reply) {
        ReadLatestStep::Done(Err(TransactionalObjectError::ObjectStoreError(e))) => {
            assert_eq!(StoreErrorKind::Other, e.kind)
        }
        _ => panic!("expected the store's failure"),
    }
    let err = protocol
        .delete_unchecked_on_delete(MonotonicId::new(1), Err(error_of(StoreErrorKind::NotFound)))
        .unwrap_err();
    assert!(matches!(err, TransactionalObjectError::ObjectStoreError(_)));
}

fn seen(id: u64, e_tag: Option<&str>, bytes: &[u8]) -> CachedLatest {
    CachedLatest {
        id: MonotonicId::new(id),
        e_tag: e_tag.map(|t| t.to_string()),
        bytes: bytes.to_vec(),
    }
}

#[test]
fn anchor_is_asked_for_with_its_tag() {
    let protocol = probe_store();
    let request = protocol.revalidate_anchor(&seen(7, Some("tag"), b"x"));
    assert_eq!("root/test/00000000000000000007.val", request.path);
    assert_eq!(Some("tag".to_string()), request.if_none_match);

    let not_modified = || Err(error_of(StoreErrorKind::NotModified));
    let version = Protocol::revalidate_anchor_on_get(seen(7, Some("tag"), b"x"), not_modified())
        .unwrap()
        .unwrap();
    assert_eq!((7, b"x".to_vec()), (version.id.id(), version.bytes));
    // Without a tag the store has nothing to compare, and the reply makes no sense.
    let err =
        Protocol::revalidate_anchor_on_get(seen(7, None, b"x"), not_modified()).unwrap_err();
    assert!(matches!(err, TransactionalObjectError::ObjectStoreError(_)));
    let gone = Protocol::revalidate_anchor_on_get(
        seen(7, Some("tag"), b"x"),
        Err(error_of(StoreErrorKind::NotFound)),
    )
    .unwrap();
    assert!(gone.is_none());
}

#[test]
fn seen_version_only_moves_forward() {
    let mut protocol = probe_store();
    assert!(protocol.try_probe_latest().is_none());
    protocol.cache_latest(seen(5, None, b"five"));
    protocol.cache_latest(seen(3, None, b"three"));
    let (request, _) = protocol.try_probe_latest().unwrap();
    assert_eq!("root/test/00000000000000000006.val", request.path);
    // Another version's deletion changes nothing.
    protocol.invalidate_cached(MonotonicId::new(4));
    assert!(protocol.try_probe_latest().is_some());
    protocol.cache_latest(seen(6, None, b"six"));
    protocol.invalidate_cached(MonotonicId::new(6));
    assert!(protocol.try_probe_latest().is_none());
}

#[test]
fn last_id_has_no_next() {
    let mut protocol = probe_store();
    assert!(protocol.has_next_id());
    protocol.cache_latest(seen(u64::MAX - 1, None, b"x"));
    assert!(protocol.has_next_id());
    match protocol.try_read_latest_unchecked::<TestVal, String>() {
        ReadLatestStep::Get { request, pending } => {
            assert_eq!("root/test/18446744073709551615.val", request.path);
            let found: GetReply<String> = Ok(FetchedObject {
                version: UpdateVersion { e_tag: None, version: None },
                bytes: vec![],
            });
            assert!(!pending.has_next_id(&found));
            let missing: GetReply<String> = Err(error_of(StoreErrorKind::NotFound));
            assert!(pending.has_next_id(&missing));
        }
        _ => panic!("expected a request"),
    }
    let (_, probe) = protocol.try_probe_latest().unwrap();
    assert!(probe.has_next_id::<String>(&Err(error_of(StoreErrorKind::NotFound))));
    protocol.cache_latest(seen(u64::MAX, None, b"x"));
    assert!(!protocol.has_next_id());
}

#[test]
fn probe_steps_in_turn() {
    let mut protocol = probe_store();
    protocol.cache_latest(seen(1, Some("one"), b"1"));
    let (_, probe) = protocol.try_probe_latest().unwrap();
    let object = FetchedObject {
        version: UpdateVersion { e_tag: Some("two".to_string()), version: None },
        bytes: b"2".to_vec(),
    };
    let reply: GetReply<String> = Ok(object);
    match protocol.try_probe_latest_on_get(probe, reply) {
        ProbeStep::Get { request, probe } => {
            assert_eq!("root/test/00000000000000000003.val", request.path);
            let reply: GetReply<String> = Err(error_of(StoreErrorKind::NotFound));
            match protocol.try_probe_latest_on_get(probe, reply) {
                ProbeStep::Done(Ok(Some(latest))) => {
                    assert_eq!(2, latest.id.id());
                    assert_eq!(Some("two".to_string()), latest.e_tag);
                    assert_eq!(b"2".to_vec(), latest.bytes);
                }
                _ => panic!("expected the latest version"),
            }
        }
        ProbeStep::Done(_) => panic!("expected another request"),
    }
}

#[test]
fn delete_forgets_the_version() {
    let store = CountingStore::new();
    let mut protocol = probe_store();
    let first = write(&store, &mut protocol, None, &val(1)).unwrap();
    let second = write(&store, &mut protocol, Some(first), &val(2)).unwrap();
    delete(&store, &mut protocol, second).unwrap();
    assert!(protocol.try_probe_latest().is_none());
    assert_eq!(None, read(&store, &protocol, second.id()).unwrap());
    assert_eq!(Some((first, val(1))), read_latest(&store, &mut protocol).unwrap());
}

#[test]
fn list_passes_over_other_files() {
    let store = CountingStore::new();
    let protocol = probe_store();
    for name in [
        "00000000000000000002.val",
        "00000000000000000010.val",
        "+3.val",
        "00000000000000000001.other",
        "readme.val",
        "noextension",
        "5.extra.val",
        "18446744073709551616.val",
    ] {
        store.put_raw(&format!("root/test/{}", name), b"x");
    }
    let ids: Vec<u64> = list(&store, &protocol, IdBound::Unbounded, IdBound::Unbounded)
        .iter()
        .map(|file| file.id.id())
        .collect();
    assert_eq!(vec![2, 3, 5, 10], ids);
    let inside: Vec<u64> = list(
        &store,
        &protocol,
        IdBound::Excluded(MonotonicId::new(2)),
        IdBound::Included(MonotonicId::new(5)),
    )
    .iter()
    .map(|file| file.id.id())
    .collect();
    assert_eq!(vec![3, 5], inside);
    let err = protocol
        .list_on_list::<String>(
            IdBound::Unbounded,
            IdBound::Unbounded,
            Err(error_of(StoreErrorKind::Other)),
        )
        .unwrap_err();
    assert!(matches!(err, TransactionalObjectError::ObjectStoreError(_)));
}

#[test]
fn parse_id_reads_what_path_for_writes() {
    let protocol = probe_store();
    for id in [0, 1, 42, u64::MAX] {
        let path = protocol.path_for(MonotonicId::new(id));
        assert_eq!(id, protocol.parse_id::<String>(&path).unwrap().id());
    }
    assert_eq!(
        "root/test/18446744073709551615.val",
        protocol.path_for(MonotonicId::new(u64::MAX))
    );
    for path in ["root/test/1.other", "root/test/x.val", "root/test/.val", "val", "", "a.val/1"] {
        assert!(matches!(
            protocol.parse_id::<String>(path),
            Err(TransactionalObjectError::InvalidObjectState)
        ));
    }
    assert_eq!(7, protocol.parse_id::<String>("7.val").unwrap().id());
}

#[test]
fn paths_are_in_the_order_of_ids() {
    let protocol = probe_store();
    let ids = [0, 1, 9, 10, 99, 100, 12_345, u64::MAX / 2, u64::MAX - 1, u64::MAX];
    let paths: Vec<String> =
        ids.iter().map(|id| protocol.path_for(MonotonicId::new(*id))).collect();
    assert!(paths.windows(2).all(|w| w[0] < w[1]));
}

#[test]
fn written_version_is_read_back_whatever_the_suffix() {
    let store = CountingStore::new();
    let mut protocol = ObjectStoreSequencedStorageProtocol::new("root", "test", "a.b");
    let id = write(&store, &mut protocol, None, &val(1)).unwrap();
    assert_eq!(Some((id, val(1))), read_latest(&store, &mut protocol).unwrap());
    assert_eq!(0, store.lists.get());
}

#[test]
fn boundary_of_a_protocol_is_its_own() {
    let store = CountingStore::new();
    let mut protocol = probe_store();
    assert!(matches!(
        protocol.boundary().check::<String>(MonotonicId::new(1)),
        CheckStep::Get(request) if request.path == "root/gc/test.boundary"
    ));
    let mut step = protocol.advance::<String>(MonotonicId::new(2));
    let result = loop {
        step = match step {
            AdvanceStep::Get { request, pending } => {
                protocol.advance_on_get(pending, store.get(&request))
            }
            AdvanceStep::Put { request, pending } => {
                protocol.advance_on_put(pending, store.put(request))
            }
            AdvanceStep::Done(result) => break result,
        };
    };
    result.unwrap();
    assert_eq!("2", store.raw("root/gc/test.boundary"));
    assert!(check_new_version(&store, &mut protocol, MonotonicId::new(2)).is_err());
    check_new_version(&store, &mut protocol, MonotonicId::new(3)).unwrap();
}

fn boundary_in(bytes: &[u8]) -> Result<u64, Failure> {
    let store = CountingStore::new();
    store.put_raw("root/gc/manifest.boundary", bytes);
    let mut boundary = boundary_object("manifest");
    let request = boundary.read_boundary();
    let (id, version) = boundary.read_boundary_on_get(store.get(&request))?;
    assert!(version.is_some());
    Ok(id.id())
}

#[test]
fn boundary_file_holds_a_number() {
    assert_eq!(5, boundary_in(b"5").unwrap());
    assert_eq!(5, boundary_in(b" \t5\r\n").unwrap());
    assert_eq!(5, boundary_in("\u{a0}+005\u{2003}".as_bytes()).unwrap());
    assert_eq!(u64::MAX, boundary_in(b"18446744073709551615").unwrap());
    let bad: [&[u8]; 7] =
        [b"", b"+", b"-1", b"5 6", b"18446744073709551616", b"five", b"\xff5"];
    for bytes in bad {
        assert!(matches!(
            boundary_in(bytes),
            Err(TransactionalObjectError::InvalidObjectState)
        ));
    }
}

#[test]
fn boundary_not_modified_without_having_been_seen_is_invalid() {
    let mut boundary = boundary_object("manifest");
    assert!(matches!(
        boundary.read_boundary_on_get::<String>(Err(error_of(StoreErrorKind::NotModified))),
        Err(TransactionalObjectError::InvalidObjectState)
    ));
    assert!(matches!(
        boundary.read_boundary_on_get::<String>(Err(error_of(StoreErrorKind::Other))),
        Err(TransactionalObjectError::ObjectStoreError(_))
    ));
}

#[test]
fn boundary_seen_never_moves_back() {
    let mut boundary = boundary_object("manifest");
    let version = |tag: &str| UpdateVersion { e_tag: Some(tag.to_string()), version: None };
    let (kept, _) = boundary.update_cache(MonotonicId::new(4), version("four"));
    assert_eq!(4, kept.id());
    let (kept, kept_version) = boundary.update_cache(MonotonicId::new(3), version("three"));
    assert_eq!(4, kept.id());
    assert_eq!(Some("four".to_string()), kept_version.unwrap().e_tag);
    // Of equal boundaries the later version is kept.
    let (kept, kept_version) = boundary.update_cache(MonotonicId::new(4), version("again"));
    assert_eq!(4, kept.id());
    assert_eq!(Some("again".to_string()), kept_version.unwrap().e_tag);
    assert_eq!(Some("again".to_string()), boundary.read_boundary().if_none_match);
}

#[test]
fn boundary_of_a_missing_file_is_zero_save_for_what_was_seen() {
    let store = CountingStore::new();
    let mut boundary = boundary_object("manifest");
    boundary.update_cache(MonotonicId::new(4), UpdateVersion { e_tag: None, version: None });
    assert!(check(&store, &mut boundary, 4).is_err());
    check(&store, &mut boundary, 5).unwrap();
}

#[test]
fn boundary_advance_passes_failures_on() {
    let mut boundary = boundary_object("manifest");
    match boundary.advance::<String>(MonotonicId::new(1)) {
        AdvanceStep::Get { request, pending } => {
            assert_eq!("root/gc/manifest.boundary", request.path);
            match boundary.advance_on_get(pending, Err(error_of(StoreErrorKind::NotFound))) {
                AdvanceStep::Put { request, pending } => {
                    assert_eq!(b"1".to_vec(), request.payload);
                    assert!(matches!(request.mode, PutMode::Create));
                    match boundary.advance_on_put(pending, Err(error_of(StoreErrorKind::Other))) {
                        AdvanceStep::Done(Err(TransactionalObjectError::ObjectStoreError(e))) => {
                            assert_eq!(StoreErrorKind::Other, e.kind)
                        }
                        _ => panic!("expected the store's failure"),
                    }
                }
                _ => panic!("expected a write"),
            }
            match boundary.advance_on_get(pending, Err(error_of(StoreErrorKind::Other))) {
                AdvanceStep::Done(Err(TransactionalObjectError::ObjectStoreError(_))) => {}
                _ => panic!("expected the store's failure"),
            }
        }
        _ => panic!("expected a read"),
    }
}

/// Handles replies until the advance is done.
fn finish_advance(
    store: &CountingStore,
    boundary: &mut ObjectStoreBoundaryObject,
    mut step: AdvanceStep<String>,
) -> Result<(), Failure> {
    loop {
        step = match step {
            AdvanceStep::Get { request, pending } => {
                boundary.advance_on_get(pending, store.get(&request))
            }
            AdvanceStep::Put { request, pending } => {
                boundary.advance_on_put(pending, store.put(request))
            }
            AdvanceStep::Done(result) => return result,
        };
    }
}

#[test]
fn boundary_rises_under_interleaved_advances() {
    let store = CountingStore::new();
    let mut slow = boundary_object("manifest");
    let mut fast = boundary_object("manifest");

    // The file is missing when the slow process reads it, and is made by the other one meanwhile.
    let step = match slow.advance::<String>(MonotonicId::new(3)) {
        AdvanceStep::Get { request, pending } => {
            let reply = store.get(&request);
            advance(&store, &mut fast, 5).unwrap();
            slow.advance_on_get(pending, reply)
        }
        _ => panic!("expected a read"),
    };
    assert!(matches!(
        &step,
        AdvanceStep::Put { request, .. } if matches!(request.mode, PutMode::Create)
    ));
    finish_advance(&store, &mut slow, step).unwrap();
    assert_eq!("5", store.raw("root/gc/manifest.boundary"));

    // Both have seen 5 and write over it; the later write is refused and tried anew.
    let slow_step = slow.advance::<String>(MonotonicId::new(7));
    let fast_step = fast.advance::<String>(MonotonicId::new(9));
    assert!(matches!(slow_step, AdvanceStep::Put { .. }));
    finish_advance(&store, &mut fast, fast_step).unwrap();
    finish_advance(&store, &mut slow, slow_step).unwrap();
    assert_eq!("9", store.raw("root/gc/manifest.boundary"));
    for boundary in [&mut slow, &mut fast] {
        assert!(check(&store, boundary, 9).is_err());
        check(&store, boundary, 10).unwrap();
    }
}

#[test]
fn boundary_advance_survives_a_lost_reply() {
    let store = CountingStore::new();
    let mut boundary = boundary_object("manifest");
    advance(&store, &mut boundary, 2).unwrap();
    let step = match boundary.advance::<String>(MonotonicId::new(4)) {
        AdvanceStep::Put { request, pending } => {
            // The write is taken, but a retry of it is reported as refused.
            store.put(request).unwrap();
            boundary.advance_on_put(pending, Err(error_of(StoreErrorKind::Precondition)))
        }
        _ => panic!("expected a write"),
    };
    finish_advance(&store, &mut boundary, step).unwrap();
    assert_eq!("4", store.raw("root/gc/manifest.boundary"));
    // A failure leaves the boundary where it is.
    match boundary.advance::<String>(MonotonicId::new(6)) {
        AdvanceStep::Put { pending, .. } => {
            let step = boundary.advance_on_put(pending, Err(error_of(StoreErrorKind::Other)));
            assert!(finish_advance(&store, &mut boundary, step).is_err());
        }
        _ => panic!("expected a write"),
    }
    assert_eq!("4", store.raw("root/gc/manifest.boundary"));
}

#[test]
fn boundary_advance_to_zero_writes_nothing() {
    let store = CountingStore::new();
    let mut boundary = boundary_object("manifest");
    advance(&store, &mut boundary, 0).unwrap();
    assert!(store.get(&boundary.read_boundary()).is_err());
}

#[test]
fn boundary_name_is_one_segment() {
    let boundary = ObjectStoreBoundaryObject::new("root", "a/b%");
    assert_eq!("root/gc/a%2Fb%25.boundary", boundary.read_boundary().path);
    let at_the_root = ObjectStoreBoundaryObject::new("", "x");
    assert_eq!("gc/x.boundary", at_the_root.read_boundary().path);
}

fn options(dry_run: bool) -> GarbageCollectorDirectoryOptions {
    GarbageCollectorDirectoryOptions {
        min_age: Duration::from_secs(1),
        interval: None,
        dry_run,
        max_interval: None,
        list_cache_ttl: None,
    }
}

fn compactions_store() -> Protocol {
    ObjectStoreSequencedStorageProtocol::new("root", "compactions", "compactions")
}

/// Sweeps the directory of `protocol` at `now`.
fn collect(
    task: &CompactionsGcTask,
    store: &CountingStore,
    protocol: &mut Protocol,
    now: Timestamp,
    allowed: Option<Vec<ObjectMetadata>>,
) -> Result<Collected<u64>, Failure> {
    let latest = read_latest(store, protocol).map(|found| found.map(|(id, _)| id.id()));
    let mut allowed = Some(allowed);
    let mut step = task.collect(latest, Duration::from_secs(300));
    loop {
        step = match step {
            CompactionsStep::List { pending, .. } => {
                let files = list(store, protocol, IdBound::Unbounded, IdBound::Unbounded)
                    .into_iter()
                    .map(|file| IdentifiedObjectMetadata {
                        id: file.id.id(),
                        metadata: file.metadata,
                    })
                    .collect();
                task.collect_on_list(pending, now, Ok(files))
            }
            CompactionsStep::Sweep { boundary, pending, .. } => {
                let advanced = match boundary {
                    Some(id) => {
                        let mut object = boundary_object("compactions");
                        advance(store, &mut object, id)
                    }
                    None => Ok(()),
                };
                task.collect_on_boundary(pending, advanced)
            }
            CompactionsStep::Filter { pending } => {
                task.collect_on_filter(pending, allowed.take().unwrap())
            }
            CompactionsStep::Delete { ids, pending } => {
                let outcomes: Vec<Result<(), Failure>> = ids
                    .iter()
                    .map(|id| delete(store, protocol, MonotonicId::new(*id)))
                    .collect();
                task.collect_on_delete(pending, &outcomes)
            }
            CompactionsStep::Done(result) => return result,
        };
    }
}

fn ids_in(store: &CountingStore, protocol: &Protocol) -> Vec<u64> {
    list(store, protocol, IdBound::Unbounded, IdBound::Unbounded)
        .iter()
        .map(|compactions| compactions.id.id())
        .collect()
}

#[test]
fn test_collect_advances_boundary_for_old_compactions_files() {
    let store = CountingStore::new();
    let mut protocol = compactions_store();
    let mut id = write(&store, &mut protocol, None, &val(0)).unwrap();
    id = write(&store, &mut protocol, Some(id), &val(0)).unwrap();
    write(&store, &mut protocol, Some(id), &val(0)).unwrap();

    let task = CompactionsGcTask::new(options(false), true);
    let done = collect(&task, &store, &mut protocol, hours_from_now(1), None).unwrap();

    assert_eq!("2", store.raw("/root/gc/compactions.boundary"));
    assert_eq!(vec![3], ids_in(&store, &protocol));
    assert_eq!(Collected { found: 2, deleted: 2, forget: vec![1, 2] }, done);
}

#[test]
fn test_collect_without_boundary_advancement_deletes_and_preserves_boundary() {
    let store = CountingStore::new();
    let mut protocol = compactions_store();
    let mut id = write(&store, &mut protocol, None, &val(0)).unwrap();
    id = write(&store, &mut protocol, Some(id), &val(0)).unwrap();
    let mut boundary = boundary_object("compactions");
    advance(&store, &mut boundary, 1).unwrap();
    write(&store, &mut protocol, Some(id), &val(0)).unwrap();

    let task = CompactionsGcTask::new(options(false), false);
    collect(&task, &store, &mut protocol, hours_from_now(1), None).unwrap();

    assert_eq!("1", store.raw("/root/gc/compactions.boundary"));
    assert_eq!(vec![3], ids_in(&store, &protocol));
}

#[test]
fn test_collect_advances_boundary_before_filtering_compactions_files() {
    let store = CountingStore::new();
    let mut protocol = compactions_store();
    let mut id = write(&store, &mut protocol, None, &val(0)).unwrap();
    id = write(&store, &mut protocol, Some(id), &val(0)).unwrap();
    write(&store, &mut protocol, Some(id), &val(0)).unwrap();

    let task = CompactionsGcTask::new(options(false), true);
    let denied = Some(Vec::new());
    let done = collect(&task, &store, &mut protocol, hours_from_now(1), denied).unwrap();

    assert_eq!("2", store.raw("/root/gc/compactions.boundary"));
    assert!(read(&store, &protocol, 1).unwrap().is_some());
    assert!(read(&store, &protocol, 2).unwrap().is_some());
    assert_eq!(Collected { found: 0, deleted: 0, forget: vec![] }, done);
}

#[test]
fn dry_run_finds_but_deletes_nothing() {
    let store = CountingStore::new();
    let mut protocol = compactions_store();
    let id = write(&store, &mut protocol, None, &val(0)).unwrap();
    write(&store, &mut protocol, Some(id), &val(0)).unwrap();

    let task = CompactionsGcTask::new(options(true), true);
    let done = collect(&task, &store, &mut protocol, hours_from_now(1), None).unwrap();
    assert_eq!(Collected { found: 1, deleted: 0, forget: vec![1] }, done);
    assert_eq!(vec![1, 2], ids_in(&store, &protocol));
    // The boundary is moved all the same.
    assert_eq!("1", store.raw("/root/gc/compactions.boundary"));
}

#[test]
fn young_files_stay() {
    let store = CountingStore::new();
    let mut protocol = compactions_store();
    let id = write(&store, &mut protocol, None, &val(0)).unwrap();
    write(&store, &mut protocol, Some(id), &val(0)).unwrap();

    let task = CompactionsGcTask::new(options(false), true);
    let done = collect(&task, &store, &mut protocol, hours_from_now(-1), None).unwrap();
    assert_eq!(0, done.found);
    assert_eq!(vec![1, 2], ids_in(&store, &protocol));
    // Nothing goes, so no boundary is made.
    assert!(store.get(&boundary_object("compactions").read_boundary()).is_err());
}

#[test]
fn sweep_of_an_empty_directory_is_over_at_once() {
    let store = CountingStore::new();
    let mut protocol = compactions_store();
    let task = CompactionsGcTask::new(options(false), true);
    let done = collect(&task, &store, &mut protocol, hours_from_now(1), None).unwrap();
    assert_eq!(Collected { found: 0, deleted: 0, forget: vec![] }, done);
}

#[test]
fn recovery_survives_a_sweep() {
    let store = CountingStore::new();
    let mut writer = compactions_store();
    let mut id = write(&store, &mut writer, None, &val(1)).unwrap();
    for i in 2..=5 {
        id = write(&store, &mut writer, Some(id), &val(i)).unwrap();
    }
    let task = CompactionsGcTask::new(options(false), true);
    collect(&task, &store, &mut writer, hours_from_now(1), None).unwrap();

    let mut recovered = compactions_store();
    assert_eq!(Some((id, val(5))), read_latest(&store, &mut recovered).unwrap());
    // A writer that is behind cannot bring a deleted version back.
    let err = write(&store, &mut recovered, Some(MonotonicId::new(2)), &val(0)).unwrap_err();
    assert!(matches!(err, TransactionalObjectError::ObjectVersionExists));
    assert_eq!(6, write(&store, &mut recovered, Some(id), &val(6)).unwrap().id());
}

#[test]
fn readers_survive_a_sweep() {
    let store = CountingStore::new();
    let mut writer = compactions_store();
    let mut readers: Vec<Protocol> = Vec::new();
    let mut id = write(&store, &mut writer, None, &val(1)).unwrap();
    for i in 2..=6 {
        let mut reader = compactions_store();
        read_latest(&store, &mut reader).unwrap().unwrap();
        readers.push(reader);
        id = write(&store, &mut writer, Some(id), &val(i)).unwrap();
    }
    let task = CompactionsGcTask::new(options(false), true);
    collect(&task, &store, &mut writer, hours_from_now(1), None).unwrap();
    assert_eq!(vec![6], ids_in(&store, &writer));

    // All but the reader right before the latest version have lost their place.
    let mut lists = Vec::new();
    for reader in &mut readers {
        let before = store.lists.get();
        assert_eq!(Some((id, val(6))), read_latest(&store, reader).unwrap());
        lists.push(store.lists.get() - before);
    }
    assert_eq!(vec![1, 1, 1, 1, 0], lists);
}

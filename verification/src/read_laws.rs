//! What holds of reading the latest version of an object, over all its steps.
//!
//! Two views are taken. In a store that nobody writes to meanwhile, a reader finds the newest
//! version, with few requests. In any store, whatever others do meanwhile, what a reader gives
//! back was sent or confirmed by the store during that very read.
use crate::error::{StoreError, StoreErrorKind, TransactionalObjectError};
use crate::id::{IdBound, MonotonicId};
use crate::latest::{
    delete_on_delete, probe_from, probe_next, read_on_decoded, read_on_get, read_on_list,
    read_start, waiting, write_on_put, CachedLatestView, PendingDecodeView, PendingGetView,
    ProbeStepView, ProbeView, ProtocolView, ReadLatestStepView, PROBE_LIMIT,
};
use crate::listing::{has_file, identified, lemma_identified, lemma_newest_id, newest_id, shows};
use crate::naming::{
    lemma_path_gives_id, lemma_paths_differ, parsed_id, readable_suffix, version_path,
};
use crate::store::{FetchedObjectView, GetRequestView, ObjectMetadata, UpdateVersionView};
use crate::text_laws::lemma_version_lies_in_its_directory;
use vstd::prelude::*;

verus! {

/// A store that nobody writes to, and the codec of its objects.
pub struct World<T, E> {
    /// The object at each path.
    pub objects: Map<Seq<char>, FetchedObjectView>,
    /// What a listing of each directory shows.
    pub listing: spec_fn(Seq<char>) -> Seq<ObjectMetadata>,
    /// What the contents of an object decode to.
    pub decode: spec_fn(Seq<u8>) -> Result<T, E>,
    /// The cause that the store's failures carry.
    pub source: E,
}

impl<T, E> World<T, E> {
    /// The reply to a request for an object: that there is none; that it is not modified, where
    /// its entity tag is the one that the caller named; or the object.
    pub open spec fn reply(self, request: GetRequestView) -> Result<
        FetchedObjectView,
        StoreError<E>,
    > {
        if !self.objects.contains_key(request.path) {
            Err(StoreError { kind: StoreErrorKind::NotFound, source: self.source })
        } else if request.if_none_match is Some && self.objects[request.path].version.e_tag
            == request.if_none_match {
            Err(StoreError { kind: StoreErrorKind::NotModified, source: self.source })
        } else {
            Ok(self.objects[request.path])
        }
    }

    /// Whether the store holds version `id`.
    pub open spec fn holds(self, at: ProtocolView, id: int) -> bool {
        0 <= id <= u64::MAX && self.objects.contains_key(at.path(id as u64))
    }

    /// Whether a listing of the object's directory shows the versions that the store holds, and
    /// no file that has the name of another one.
    pub open spec fn lists_versions(self, at: ProtocolView) -> bool {
        let listing = (self.listing)(at.dir);
        &&& forall|id: u64| #[trigger]
            self.objects.contains_key(at.path(id)) ==> exists|i: int|
                0 <= i < listing.len() && listing[i].location@ == at.path(id)
        &&& forall|i: int|
            0 <= i < listing.len() ==> (parsed_id(#[trigger] listing[i].location@, at.suffix)
                matches Some(id) ==> self.objects.contains_key(at.path(id)))
    }

    /// Whether `newest` is the greatest id of the versions that the store holds.
    pub open spec fn newest_is(self, at: ProtocolView, newest: u64) -> bool {
        &&& self.holds(at, newest as int)
        &&& forall|id: int| #[trigger] self.holds(at, id) ==> id <= newest
    }

    /// Whether no version between two that the store holds is missing.
    pub open spec fn without_gaps(self, at: ProtocolView) -> bool {
        forall|a: int, b: int, c: int|
            #![trigger self.holds(at, a), self.holds(at, b), self.holds(at, c)]
            self.holds(at, a) && self.holds(at, c) && a <= b <= c ==> self.holds(at, b)
    }

    /// Whether an entity tag that was seen of a version stands for the same contents in the store.
    pub open spec fn tag_is_true(self, at: ProtocolView) -> bool {
        at.cache matches Some(anchor) ==> (self.holds(at, anchor.id as int) && anchor.e_tag is Some
            && self.objects[at.path(anchor.id)].version.e_tag == anchor.e_tag
            ==> self.objects[at.path(anchor.id)].bytes == anchor.bytes)
    }

    /// Whether what was seen of the latest version can be relied on as an anchor: no version
    /// between it and the newest one is missing, unless both it and the version right after it
    /// are; an entity tag stands for the same contents in the store; and there is an id after it.
    pub open spec fn anchored(self, at: ProtocolView, newest: u64) -> bool {
        at.cache matches Some(anchor) ==> {
            &&& anchor.id < u64::MAX
            &&& (forall|id: int| anchor.id < id <= newest ==> #[trigger] self.holds(at, id)) || (
            !self.holds(at, anchor.id as int) && !self.holds(at, anchor.id + 1))
            &&& self.tag_is_true(at)
        }
    }

    /// Whether a reader needs a listing to find version `newest`: it has seen no version; what it
    /// has seen is gone and not followed by the next version; or too many versions lie ahead.
    pub open spec fn needs_listing(self, at: ProtocolView, newest: u64) -> bool {
        match at.cache {
            None => true,
            Some(anchor) => {
                ||| newest < anchor.id
                ||| newest > anchor.id && !self.holds(at, anchor.id + 1)
                ||| newest > anchor.id + PROBE_LIMIT
            },
        }
    }

    /// Version `id` as the store holds it.
    pub open spec fn version(self, at: ProtocolView, id: u64) -> CachedLatestView {
        let object = self.objects[at.path(id)];
        CachedLatestView { id, e_tag: object.version.e_tag, bytes: object.bytes }
    }

    /// What reading version `id` gives.
    pub open spec fn value(self, at: ProtocolView, id: u64) -> Result<
        Option<(MonotonicId, T)>,
        TransactionalObjectError<E>,
    > {
        match (self.decode)(self.objects[at.path(id)].bytes) {
            Ok(value) => Ok(Some((MonotonicId { id }, value))),
            Err(e) => Err(TransactionalObjectError::CallbackError(e)),
        }
    }
}

/// How a read of the latest version ended: what is then known of the latest version, the result,
/// and how many objects and listings the store was asked for.
pub struct ReadRun<T, E> {
    pub at: ProtocolView,
    pub result: Result<Option<(MonotonicId, T)>, TransactionalObjectError<E>>,
    pub gets: int,
    pub lists: int,
}

/// A read with so many more requests.
pub open spec fn after_requests<T, E>(
    run: Option<ReadRun<T, E>>,
    gets: int,
    lists: int,
) -> Option<ReadRun<T, E>> {
    match run {
        Some(run) => Some(ReadRun { gets: run.gets + gets, lists: run.lists + lists, ..run }),
        None => None,
    }
}

/// How a reader of the latest version ends in `world` that is about to do `step`; none where it
/// takes more than `fuel` requests.
pub open spec fn run_read<T, E>(
    world: World<T, E>,
    at: ProtocolView,
    step: ReadLatestStepView<T, E>,
    fuel: nat,
) -> Option<ReadRun<T, E>>
    decreases fuel,
{
    match step {
        ReadLatestStepView::Done(result) => Some(ReadRun { at, result, gets: 0, lists: 0 }),
        ReadLatestStepView::Decode(pending) => {
            let (now, result) = read_on_decoded(
                at,
                pending,
                (world.decode)(pending.version.bytes),
            );
            Some(ReadRun { at: now, result, gets: 0, lists: 0 })
        },
        ReadLatestStepView::Get { request, pending } => if fuel == 0 {
            None
        } else {
            let (now, next) = read_on_get::<T, E>(at, pending, world.reply(request));
            after_requests(run_read(world, now, next, (fuel - 1) as nat), 1, 0)
        },
        ReadLatestStepView::List { prefix } => if fuel == 0 {
            None
        } else {
            let next = read_on_list::<T, E>(at, Ok((world.listing)(prefix)));
            after_requests(run_read(world, at, next, (fuel - 1) as nat), 0, 1)
        },
    }
}

/// The newest version that a listing shows is the newest one that the store holds.
proof fn lemma_listing_shows_newest<T, E>(world: World<T, E>, at: ProtocolView)
    requires
        readable_suffix(at.suffix),
        world.lists_versions(at),
    ensures
        ({
            let files = identified(
                (world.listing)(at.dir),
                at.suffix,
                IdBound::Unbounded,
                IdBound::Unbounded,
            );
            &&& newest_id(files) is None <==> forall|id: int| !#[trigger] world.holds(at, id)
            &&& newest_id(files) matches Some(newest) ==> world.newest_is(at, newest)
        }),
{
    let listing = (world.listing)(at.dir);
    let files = identified(listing, at.suffix, IdBound::Unbounded, IdBound::Unbounded);
    let all = IdBound::Unbounded;
    lemma_newest_id(files);
    assert forall|id: int| #[trigger] world.holds(at, id) implies newest_id(files) is Some && id
        <= newest_id(files)->0 by {
        let n = id as u64;
        assert(world.objects.contains_key(at.path(n)));
        let j = choose|j: int| 0 <= j < listing.len() && listing[j].location@ == at.path(n);
        lemma_path_gives_id(at.dir, at.suffix, n);
        assert(shows(listing, at.suffix, n));
        lemma_identified(listing, at.suffix, all, all, n);
    }
    if newest_id(files) is Some {
        let newest = newest_id(files)->0;
        assert(has_file(files, newest));
        lemma_identified(listing, at.suffix, all, all, newest);
        let j = choose|j: int|
            0 <= j < listing.len() && parsed_id((#[trigger] listing[j]).location@, at.suffix)
                == Some(newest);
        assert(world.holds(at, newest as int));
    }
}

/// Whether a read that ended is a read of version `newest` by a reader that started at `at`: it
/// gave that version's value, and where it could be decoded, knows it as the latest one.
pub open spec fn found_newest<T, E>(
    world: World<T, E>,
    at: ProtocolView,
    run: ReadRun<T, E>,
    newest: u64,
) -> bool {
    &&& run.result == world.value(at, newest)
    &&& run.at.dir == at.dir
    &&& run.at.suffix == at.suffix
    &&& run.result is Ok ==> run.at.cache == if at.cache is Some && at.cache->0.id == newest {
        at.cache
    } else {
        Some(world.version(at, newest))
    }
}

/// What a store holds of an object does not depend on what was seen of it.
proof fn lemma_same_place<T, E>(
    world: World<T, E>,
    at: ProtocolView,
    now: ProtocolView,
    newest: u64,
)
    requires
        now.dir == at.dir,
        now.suffix == at.suffix,
    ensures
        world.lists_versions(at) ==> world.lists_versions(now),
        world.newest_is(at, newest) ==> world.newest_is(now, newest),
{
    assert forall|id: u64| #[trigger] now.path(id) == at.path(id) by {}
    assert forall|id: int| #[trigger] world.holds(now, id) == world.holds(at, id) by {}
    if world.lists_versions(at) {
        let listing = (world.listing)(now.dir);
        assert forall|id: u64| #[trigger]
            world.objects.contains_key(now.path(id)) implies exists|i: int|
            0 <= i < listing.len() && listing[i].location@ == now.path(id) by {
            assert(world.objects.contains_key(at.path(id)));
        }
    }
}

/// A reader that lists the directory finds the newest version with one more request.
proof fn lemma_list_finds_newest<T, E>(
    world: World<T, E>,
    at: ProtocolView,
    newest: u64,
    fuel: nat,
)
    requires
        readable_suffix(at.suffix),
        world.lists_versions(at),
        world.newest_is(at, newest),
        at.cache matches Some(cached) ==> cached.id <= newest,
        fuel >= 2,
    ensures
        ({
            let run = run_read(world, at, ReadLatestStepView::List { prefix: at.dir }, fuel);
            &&& run is Some
            &&& found_newest(world, at, run->0, newest)
            &&& run->0.gets == 1
            &&& run->0.lists == 1
        }),
{
    reveal_with_fuel(run_read, 4);
    lemma_listing_shows_newest(world, at);
    let files = identified(
        (world.listing)(at.dir),
        at.suffix,
        IdBound::Unbounded,
        IdBound::Unbounded,
    );
    let shown = newest_id(files)->0;
    assert(world.holds(at, newest as int));
    assert(newest_id(files) is Some);
    assert(world.holds(at, shown as int));
    assert(shown == newest);
    let pending = PendingGetView::Listed(newest);
    let step = read_on_list::<T, E>(at, Ok((world.listing)(at.dir)));
    assert(step == waiting::<T, E>(at, pending));
    let (now, next) = read_on_get::<T, E>(at, pending, world.reply(at.fetch(newest)));
    assert(next == ReadLatestStepView::<T, E>::Decode(
        PendingDecodeView { version: world.version(at, newest), listed: true },
    ));
}

/// A walk over versions that are all there ends at the newest one, or hands over to a listing
/// where that one is too far ahead.
proof fn lemma_walk_finds_newest<T, E>(
    world: World<T, E>,
    at: ProtocolView,
    probe: ProbeView,
    newest: u64,
    fuel: nat,
)
    requires
        probe.found + (newest - probe.cur.id) > PROBE_LIMIT ==> readable_suffix(at.suffix)
            && world.lists_versions(at),
        world.newest_is(at, newest),
        newest < u64::MAX,
        at.cache matches Some(cached) ==> cached.id < newest,
        probe.valid(),
        !probe.revalidating,
        probe.cur.id <= newest,
        probe.found + (newest - probe.cur.id) > 0,
        probe.found > 0 ==> probe.cur == world.version(at, probe.cur.id),
        forall|id: int| probe.cur.id < id <= newest ==> #[trigger] world.holds(at, id),
        fuel >= PROBE_LIMIT - probe.found + 3,
    ensures
        ({
            let pending = PendingGetView::Probe(probe);
            let run = run_read(world, at, waiting::<T, E>(at, pending), fuel);
            let ahead = newest - probe.cur.id;
            &&& run is Some
            &&& found_newest(world, at, run->0, newest)
            &&& if probe.found + ahead <= PROBE_LIMIT {
                run->0.gets == ahead + 1 && run->0.lists == 0
            } else {
                run->0.gets == PROBE_LIMIT - probe.found + 2 && run->0.lists == 1
            }
        }),
    decreases newest - probe.cur.id,
{
    let pending = PendingGetView::Probe(probe);
    let asked = (probe.cur.id + 1) as u64;
    let reply = world.reply(at.fetch(asked));
    let (now, next) = read_on_get::<T, E>(at, pending, reply);
    if probe.cur.id == newest {
        assert(!world.holds(at, newest + 1));
        assert(!world.objects.contains_key(at.path(asked)));
        assert(run_read(world, now, next, (fuel - 1) as nat) is Some);
    } else {
        assert(world.holds(at, asked as int));
        let found = world.version(at, asked);
        if probe.found < PROBE_LIMIT {
            let further = ProbeView { cur: found, found: probe.found + 1, revalidating: false };
            assert(next == waiting::<T, E>(at, PendingGetView::Probe(further)));
            lemma_walk_finds_newest(world, at, further, newest, (fuel - 1) as nat);
        } else {
            assert(now == at.cached(found));
            lemma_same_place(world, at, now, newest);
            lemma_list_finds_newest(world, now, newest, (fuel - 1) as nat);
        }
    }
}

/// In a store that nobody writes to, a reader finds the newest version, whatever it has seen of
/// the object before. It needs no listing where it has seen a version that is still there, or
/// whose successor is, and no more versions than `PROBE_LIMIT` lie ahead, and one listing
/// otherwise. It asks for one object more than versions lie ahead, two where it was up to date, and
/// never more than two past `PROBE_LIMIT`. Only where it takes a listing must this show the
/// versions, and only where it walks must an id follow the newest one.
pub proof fn lemma_read_finds_newest<T, E>(
    world: World<T, E>,
    at: ProtocolView,
    newest: u64,
    fuel: nat,
)
    requires
        world.needs_listing(at, newest) ==> readable_suffix(at.suffix) && world.lists_versions(at),
        world.newest_is(at, newest),
        at.cache is Some ==> newest < u64::MAX,
        world.anchored(at, newest),
        fuel >= PROBE_LIMIT + 3,
    ensures
        ({
            let run = run_read(world, at, read_start::<T, E>(at), fuel);
            &&& run is Some
            &&& found_newest(world, at, run->0, newest)
            &&& world.needs_listing(at, newest) <==> run->0.lists > 0
            &&& match at.cache {
                None => run->0.gets == 1 && run->0.lists == 1,
                Some(anchor) => {
                    let ahead = newest - anchor.id;
                    if ahead == 0 {
                        run->0.gets == 2 && run->0.lists == 0
                    } else if ahead < 0 || !world.holds(at, anchor.id + 1) {
                        run->0.gets == 3 && run->0.lists == 1
                    } else if ahead <= PROBE_LIMIT {
                        run->0.gets == ahead + 1 && run->0.lists == 0
                    } else {
                        run->0.gets == PROBE_LIMIT + 2 && run->0.lists == 1
                    }
                },
            }
        }),
{
    match at.cache {
        None => {
            lemma_list_finds_newest(world, at, newest, fuel);
        },
        Some(anchor) => {
            let probe = probe_from(anchor);
            if anchor.id < newest && world.holds(at, anchor.id + 1) {
                lemma_walk_finds_newest(world, at, probe, newest, fuel);
            } else {
                assert(!world.holds(at, anchor.id + 1));
                let asked = (anchor.id + 1) as u64;
                assert(!world.objects.contains_key(at.path(asked)));
                let again = ProbeView { revalidating: true, ..probe };
                let step = waiting::<T, E>(at, PendingGetView::Probe(again));
                assert(read_on_get::<T, E>(
                    at,
                    PendingGetView::Probe(probe),
                    world.reply(at.fetch(asked)),
                ) == (at, step));
                let less = (fuel - 1) as nat;
                let reply = world.reply(at.revalidate(anchor));
                let (now, next) = read_on_get::<T, E>(at, PendingGetView::Probe(again), reply);
                if anchor.id == newest {
                    assert(world.holds(at, newest as int));
                    assert(now == at);
                    assert(next is Decode);
                    assert(run_read(world, now, next, (less - 1) as nat) is Some);
                    assert(run_read(world, at, step, less) is Some);
                } else {
                    assert(!world.holds(at, anchor.id as int));
                    assert(now == at.invalidated(anchor.id));
                    lemma_same_place(world, at, now, newest);
                    lemma_list_finds_newest(world, now, newest, (less - 1) as nat);
                    assert(run_read(world, at, step, less) is Some);
                }
            }
        },
    }
}

/// How a walk ends in `world` that is at `probe`, and what is then known of the latest version;
/// none where it takes more than `fuel` requests.
pub open spec fn run_probe<T, E>(
    world: World<T, E>,
    at: ProtocolView,
    probe: ProbeView,
    fuel: nat,
) -> Option<(ProtocolView, Result<Option<CachedLatestView>, TransactionalObjectError<E>>)>
    decreases fuel,
{
    if fuel == 0 {
        None
    } else {
        let (now, step) = probe_next(at, probe, world.reply(probe.request(at)));
        match step {
            ProbeStepView::Get(next) => run_probe(world, now, next, (fuel - 1) as nat),
            ProbeStepView::Done(result) => Some((now, result)),
        }
    }
}

/// A walk over versions that are all there has the newest one as its verdict, unless that one is
/// too far ahead.
proof fn lemma_walk_verdict<T, E>(
    world: World<T, E>,
    at: ProtocolView,
    probe: ProbeView,
    newest: u64,
    fuel: nat,
)
    requires
        world.newest_is(at, newest),
        newest < u64::MAX,
        probe.valid(),
        !probe.revalidating,
        probe.cur.id <= newest,
        probe.found + (newest - probe.cur.id) > 0,
        probe.found > 0 ==> probe.cur == world.version(at, probe.cur.id),
        forall|id: int| probe.cur.id < id <= newest ==> #[trigger] world.holds(at, id),
        fuel >= PROBE_LIMIT - probe.found + 1,
    ensures
        ({
            let run = run_probe(world, at, probe, fuel);
            &&& run is Some
            &&& (run->0).1 == Ok::<_, TransactionalObjectError<E>>(
                if probe.found + (newest - probe.cur.id) <= PROBE_LIMIT {
                    Some(world.version(at, newest))
                } else {
                    None
                },
            )
        }),
    decreases newest - probe.cur.id,
{
    let asked = (probe.cur.id + 1) as u64;
    if probe.cur.id == newest {
        assert(!world.holds(at, newest + 1));
        assert(!world.objects.contains_key(at.path(asked)));
    } else {
        assert(world.holds(at, asked as int));
        if probe.found < PROBE_LIMIT {
            let further = ProbeView {
                cur: world.version(at, asked),
                found: probe.found + 1,
                revalidating: false,
            };
            lemma_walk_verdict(world, at, further, newest, (fuel - 1) as nat);
        }
    }
}

/// In a store that nobody writes to, a walk from a version that was seen has the newest version as
/// its verdict. It has no verdict only where the anchor is gone and its successor is not there, or
/// where more versions than `PROBE_LIMIT` lie ahead.
pub proof fn lemma_probe_finds_newest<T, E>(
    world: World<T, E>,
    at: ProtocolView,
    newest: u64,
    fuel: nat,
)
    requires
        at.cache is Some,
        world.newest_is(at, newest),
        newest < u64::MAX,
        world.anchored(at, newest),
        fuel >= PROBE_LIMIT + 1,
    ensures
        ({
            let anchor = at.cache->0;
            let run = run_probe(world, at, probe_from(anchor), fuel);
            let gone = !world.holds(at, anchor.id as int) && !world.holds(at, anchor.id + 1);
            &&& run is Some
            &&& (run->0).1 == Ok::<_, TransactionalObjectError<E>>(
                if gone || newest - anchor.id > PROBE_LIMIT {
                    None
                } else {
                    Some(world.version(at, newest))
                },
            )
        }),
{
    let anchor = at.cache->0;
    let probe = probe_from(anchor);
    if anchor.id < newest && world.holds(at, anchor.id + 1) {
        lemma_walk_verdict(world, at, probe, newest, fuel);
    } else {
        reveal_with_fuel(run_probe, 3);
        let asked = (anchor.id + 1) as u64;
        assert(!world.holds(at, anchor.id + 1));
        assert(!world.objects.contains_key(at.path(asked)));
        assert(world.holds(at, newest as int));
        if anchor.id > newest {
            assert(!world.holds(at, anchor.id as int));
        }
    }
}

/// Where a walk that is at `probe` stands after `replies`, each with what was known of the latest
/// version when it came in; none where there are more replies than it asked for.
pub open spec fn probe_after<E>(
    probe: ProbeView,
    replies: Seq<(ProtocolView, Result<FetchedObjectView, StoreError<E>>)>,
) -> Option<ProbeStepView<E>>
    decreases replies.len(),
{
    if replies.len() == 0 {
        Some(ProbeStepView::Get(probe))
    } else {
        match probe_after(probe, replies.drop_last()) {
            Some(ProbeStepView::Get(now)) => {
                let (at, reply) = replies.last();
                Some(probe_next(at, now, reply).1)
            },
            _ => None,
        }
    }
}

/// How far a walk is after `replies`.
proof fn lemma_probe_goes_on<E>(
    probe: ProbeView,
    replies: Seq<(ProtocolView, Result<FetchedObjectView, StoreError<E>>)>,
)
    requires
        probe.valid(),
    ensures
        probe_after(probe, replies) matches Some(ProbeStepView::Get(now)) ==> {
            &&& 0 <= now.found <= PROBE_LIMIT
            &&& now.revalidating ==> now.found == 0 && replies.len() <= 1
            &&& !now.revalidating ==> now.found == probe.found + replies.len()
        },
    decreases replies.len(),
{
    if replies.len() > 0 {
        lemma_probe_goes_on(probe, replies.drop_last());
    }
}

/// Whatever the store replies, and whatever others do meanwhile, a walk ends after at most one
/// request more than `PROBE_LIMIT`.
pub proof fn lemma_probe_ends_on_any_replies<E>(
    probe: ProbeView,
    replies: Seq<(ProtocolView, Result<FetchedObjectView, StoreError<E>>)>,
)
    requires
        probe.valid(),
        probe_after(probe, replies) is Some,
    ensures
        replies.len() <= PROBE_LIMIT + 1,
        replies.len() == PROBE_LIMIT + 1 ==> probe_after(probe, replies)->0 is Done,
{
    lemma_probe_goes_on(probe, replies);
    if replies.len() > 0 {
        lemma_probe_goes_on(probe, replies.drop_last());
    }
}

/// In any store that nobody writes to, whatever it holds, a walk ends after at most one request
/// more than `PROBE_LIMIT`.
pub proof fn lemma_probe_ends<T, E>(
    world: World<T, E>,
    at: ProtocolView,
    probe: ProbeView,
    fuel: nat,
)
    requires
        probe.valid(),
        fuel >= PROBE_LIMIT + 1,
    ensures
        run_probe(world, at, probe, fuel) is Some,
{
    lemma_probe_ends_within(world, at, probe, fuel);
}

/// A walk that has found some versions has so many fewer requests left.
proof fn lemma_probe_ends_within<T, E>(
    world: World<T, E>,
    at: ProtocolView,
    probe: ProbeView,
    fuel: nat,
)
    requires
        0 <= probe.found <= PROBE_LIMIT,
        probe.revalidating ==> fuel >= 1,
        !probe.revalidating ==> fuel >= PROBE_LIMIT - probe.found + 1,
    ensures
        run_probe(world, at, probe, fuel) is Some,
    decreases fuel,
{
    let (now, step) = probe_next(at, probe, world.reply(probe.request(at)));
    if let ProbeStepView::Get(next) = step {
        lemma_probe_ends_within(world, now, next, (fuel - 1) as nat);
    }
}

/// In a store without gaps, every version that was seen can be relied on as an anchor, whether or
/// not it is still there, as long as an id follows it.
pub proof fn lemma_dense_store_is_anchored<T, E>(
    world: World<T, E>,
    at: ProtocolView,
    newest: u64,
)
    requires
        world.newest_is(at, newest),
        world.without_gaps(at),
        world.tag_is_true(at),
        at.cache matches Some(anchor) ==> anchor.id < u64::MAX,
    ensures
        world.anchored(at, newest),
{
    if at.cache is Some {
        let anchor = at.cache->0;
        let first: int = if world.holds(at, anchor.id as int) {
            anchor.id as int
        } else {
            anchor.id + 1
        };
        if world.holds(at, first) {
            assert forall|id: int| anchor.id < id <= newest implies #[trigger] world.holds(
                at,
                id,
            ) by {
                assert(world.holds(at, newest as int));
            }
        }
    }
}

/// In a store that holds no version, a reader finds none.
pub proof fn lemma_read_finds_nothing<T, E>(world: World<T, E>, at: ProtocolView, fuel: nat)
    requires
        world.lists_versions(at),
        forall|id: int| !#[trigger] world.holds(at, id),
        fuel >= 3,
    ensures
        run_read(world, at, read_start::<T, E>(at), fuel) matches Some(run) && run.result == Ok::<
            Option<(MonotonicId, T)>,
            TransactionalObjectError<E>,
        >(None) && run.at.cache is None && run.lists == 1,
{
    reveal_with_fuel(run_read, 5);
    let all = IdBound::Unbounded;
    let listing = (world.listing)(at.dir);
    let files = identified(listing, at.suffix, all, all);
    lemma_newest_id(files);
    if newest_id(files) is Some {
        let shown = newest_id(files)->0;
        assert(has_file(files, shown));
        lemma_identified(listing, at.suffix, all, all, shown);
        let j = choose|j: int|
            0 <= j < listing.len() && parsed_id((#[trigger] listing[j]).location@, at.suffix)
                == Some(shown);
        assert(world.holds(at, shown as int));
    }
    if at.cache is Some {
        let anchor = at.cache->0;
        assert(!world.holds(at, anchor.id as int));
        let asked = (anchor.id + 1) as u64;
        assert(!world.holds(at, asked as int));
    }
}

/// The objects of a store that was asked to write `bytes` at `path`, where there is no object yet,
/// and its reply; `stamp` is the version that it gives to what is written.
pub open spec fn store_create<E>(
    objects: Map<Seq<char>, FetchedObjectView>,
    path: Seq<char>,
    bytes: Seq<u8>,
    stamp: UpdateVersionView,
    source: E,
) -> (Map<Seq<char>, FetchedObjectView>, Result<UpdateVersionView, StoreError<E>>) {
    if objects.contains_key(path) {
        (objects, Err(StoreError { kind: StoreErrorKind::AlreadyExists, source }))
    } else {
        (objects.insert(path, FetchedObjectView { version: stamp, bytes }), Ok(stamp))
    }
}

/// A version is written once. Where the store holds it already, the write is refused and nothing
/// changes; where not, it is written, and every other version stays as it is.
pub proof fn lemma_version_is_written_once<T, E>(
    world: World<T, E>,
    at: ProtocolView,
    id: u64,
    bytes: Seq<u8>,
    stamp: UpdateVersionView,
    other: u64,
)
    requires
        other != id,
    ensures
        ({
            let (objects, reply) = store_create(
                world.objects,
                at.path(id),
                bytes,
                stamp,
                world.source,
            );
            let (now, result) = write_on_put(at, id, bytes, reply);
            &&& world.holds(at, id as int) ==> {
                &&& result == Err::<MonotonicId, _>(
                    TransactionalObjectError::<E>::ObjectVersionExists,
                )
                &&& objects == world.objects
                &&& now == at
            }
            &&& !world.holds(at, id as int) ==> {
                &&& result == Ok::<MonotonicId, TransactionalObjectError<E>>(MonotonicId { id })
                &&& objects.contains_key(at.path(id))
                &&& objects[at.path(id)] == FetchedObjectView { version: stamp, bytes }
                &&& objects.contains_key(at.path(other)) == world.objects.contains_key(
                    at.path(other),
                )
                &&& objects.contains_key(at.path(other)) ==> objects[at.path(other)]
                    == world.objects[at.path(other)]
            }
        }),
{
    if at.path(other) == at.path(id) {
        lemma_paths_differ(at.dir, at.suffix, other, id);
    }
}

/// Writing the version after the newest one leaves no gap: it becomes the newest one, and where no
/// version from `oldest` on was missing, none is.
pub proof fn lemma_write_leaves_no_gap<T, E>(
    before: World<T, E>,
    after: World<T, E>,
    at: ProtocolView,
    newest: u64,
    oldest: u64,
    bytes: Seq<u8>,
    stamp: UpdateVersionView,
)
    requires
        before.newest_is(at, newest),
        newest < u64::MAX,
        forall|id: int| oldest <= id <= newest ==> #[trigger] before.holds(at, id),
        after.objects == store_create(
            before.objects,
            at.path((newest + 1) as u64),
            bytes,
            stamp,
            before.source,
        ).0,
    ensures
        after.newest_is(at, (newest + 1) as u64),
        forall|id: int| oldest <= id <= newest + 1 ==> #[trigger] after.holds(at, id),
{
    let id = (newest + 1) as u64;
    assert(!before.holds(at, id as int));
    assert forall|other: int| #[trigger] after.holds(at, other) implies other <= id by {
        if other != id {
            lemma_version_is_written_once(before, at, id, bytes, stamp, other as u64);
            assert(before.holds(at, other));
        }
    }
    assert forall|other: int| oldest <= other <= newest + 1 implies #[trigger] after.holds(
        at,
        other,
    ) by {
        if other <= newest {
            assert(before.holds(at, other));
        }
    }
}

/// What was written as the newest version is what is read: after the store took `bytes` as version
/// `id`, a reader gets them back, and where it had seen no later version, without a listing.
pub proof fn lemma_write_is_read_back<T, E>(
    before: World<T, E>,
    after: World<T, E>,
    at: ProtocolView,
    id: u64,
    bytes: Seq<u8>,
    stamp: UpdateVersionView,
    fuel: nat,
)
    requires
        forall|other: int| #[trigger] before.holds(at, other) ==> other < id,
        after.objects == store_create(
            before.objects,
            at.path(id),
            bytes,
            stamp,
            before.source,
        ).0,
        id < u64::MAX,
        at.cache is Some && at.cache->0.id >= id ==> after.anchored(at, id),
        at.cache is Some && at.cache->0.id > id ==> readable_suffix(at.suffix)
            && after.lists_versions(at),
        fuel >= PROBE_LIMIT + 3,
    ensures
        ({
            let reply = store_create(before.objects, at.path(id), bytes, stamp, before.source).1;
            let (now, result) = write_on_put(at, id, bytes, reply);
            let run = run_read(after, now, read_start::<T, E>(now), fuel);
            &&& result == Ok::<MonotonicId, TransactionalObjectError<E>>(MonotonicId { id })
            &&& run is Some
            &&& run->0.result == match (after.decode)(bytes) {
                Ok(value) => Ok(Some((MonotonicId { id }, value))),
                Err(e) => Err(TransactionalObjectError::CallbackError(e)),
            }
            &&& at.cache is None || at.cache->0.id <= id ==> run->0.gets == 2 && run->0.lists == 0
        }),
{
    let written = CachedLatestView { id, e_tag: stamp.e_tag, bytes };
    let now = at.cached(written);
    assert(!before.holds(at, id as int));
    assert(after.newest_is(at, id)) by {
        assert forall|other: int| #[trigger] after.holds(at, other) implies other <= id by {
            if other != id {
                lemma_version_is_written_once(before, at, id, bytes, stamp, other as u64);
                assert(before.holds(at, other));
            }
        }
    }
    lemma_same_place(after, at, now, id);
    if now.cache == Some(written) {
        assert forall|other: int| id < other <= id implies #[trigger] after.holds(now, other) by {}
    } else {
        assert(now == at);
    }
    lemma_read_finds_newest(after, now, id, fuel);
}

/// Where a listing of a directory shows just the objects whose paths start with the directory and a
/// slash, and no object below the directory has the name of a version without being it, a listing
/// of an object's directory shows the versions of the object.
pub proof fn lemma_directory_listing_shows_versions<T, E>(world: World<T, E>, at: ProtocolView)
    requires
        readable_suffix(at.suffix),
        forall|path: Seq<char>| #[trigger]
            world.objects.contains_key(path) && (at.dir.len() == 0 || (path.len() > at.dir.len()
                && path.take(at.dir.len() as int) == at.dir && path[at.dir.len() as int] == '/'))
                ==> exists|i: int|
                0 <= i < (world.listing)(at.dir).len() && (#[trigger] (world.listing)(
                    at.dir,
                )[i]).location@ == path,
        forall|i: int|
            0 <= i < (world.listing)(at.dir).len() ==> world.objects.contains_key(
                (#[trigger] (world.listing)(at.dir)[i]).location@,
            ),
        forall|path: Seq<char>| #[trigger]
            world.objects.contains_key(path) ==> (parsed_id(path, at.suffix) matches Some(id)
                ==> path == version_path(at.dir, at.suffix, id)),
    ensures
        world.lists_versions(at),
{
    let listing = (world.listing)(at.dir);
    assert forall|id: u64| #[trigger] world.objects.contains_key(at.path(id)) implies exists|
        i: int,
    | 0 <= i < listing.len() && listing[i].location@ == at.path(id) by {
        lemma_version_lies_in_its_directory(at.dir, at.suffix, id);
        let i = choose|i: int|
            0 <= i < (world.listing)(at.dir).len() && (#[trigger] (world.listing)(
                at.dir,
            )[i]).location@ == at.path(id);
        assert(listing[i].location@ == at.path(id));
    }
    assert forall|i: int| 0 <= i < listing.len() implies (parsed_id(
        #[trigger] listing[i].location@,
        at.suffix,
    ) matches Some(id) ==> world.objects.contains_key(at.path(id))) by {
        assert(world.objects.contains_key((world.listing)(at.dir)[i].location@));
    }
}

/// What one process has written as the newest version is read by another process that has seen
/// nothing yet, with one listing of the directory and one request.
pub proof fn lemma_other_process_reads_write<T, E>(
    before: Map<Seq<char>, FetchedObjectView>,
    after: World<T, E>,
    dir: Seq<char>,
    suffix: Seq<char>,
    id: u64,
    bytes: Seq<u8>,
    stamp: UpdateVersionView,
    fuel: nat,
)
    requires
        readable_suffix(suffix),
        forall|other: u64| #[trigger]
            before.contains_key(version_path(dir, suffix, other)) ==> other < id,
        after.objects == before.insert(
            version_path(dir, suffix, id),
            (FetchedObjectView { version: stamp, bytes }),
        ),
        forall|path: Seq<char>| #[trigger]
            after.objects.contains_key(path) && (dir.len() == 0 || (path.len() > dir.len()
                && path.take(dir.len() as int) == dir && path[dir.len() as int] == '/'))
                ==> exists|i: int|
                0 <= i < (after.listing)(dir).len() && (#[trigger] (after.listing)(
                    dir,
                )[i]).location@ == path,
        forall|i: int|
            0 <= i < (after.listing)(dir).len() ==> after.objects.contains_key(
                (#[trigger] (after.listing)(dir)[i]).location@,
            ),
        forall|path: Seq<char>| #[trigger]
            after.objects.contains_key(path) ==> (parsed_id(path, suffix) matches Some(other)
                ==> path == version_path(dir, suffix, other)),
        fuel >= 2,
    ensures
        ({
            let reader = ProtocolView { dir, suffix, cache: None };
            let run = run_read(after, reader, read_start::<T, E>(reader), fuel);
            &&& run is Some
            &&& run->0.result == match (after.decode)(bytes) {
                Ok(value) => Ok(Some((MonotonicId { id }, value))),
                Err(e) => Err(TransactionalObjectError::CallbackError(e)),
            }
            &&& run->0.gets == 1 && run->0.lists == 1
        }),
{
    let reader = ProtocolView { dir, suffix, cache: None };
    lemma_directory_listing_shows_versions(after, reader);
    assert(after.holds(reader, id as int));
    assert forall|other: int| #[trigger] after.holds(reader, other) implies other <= id by {
        if other != id {
            if version_path(dir, suffix, other as u64) == version_path(dir, suffix, id) {
                lemma_paths_differ(dir, suffix, other as u64, id);
            }
            assert(before.contains_key(version_path(dir, suffix, other as u64)));
        }
    }
    lemma_list_finds_newest(after, reader, id, fuel);
}

/// Deleting a version leaves the others readable: a reader that starts afterwards gets the newest
/// of those that are left, whether or not the one deleted is what had been seen of the object.
pub proof fn lemma_read_after_delete<T, E>(
    before: World<T, E>,
    after: World<T, E>,
    at: ProtocolView,
    id: u64,
    newest: u64,
    fuel: nat,
)
    requires
        after.objects == before.objects.remove(at.path(id)),
        after.decode == before.decode,
        after.needs_listing(at.invalidated(id), newest) ==> readable_suffix(at.suffix)
            && after.lists_versions(at),
        after.newest_is(at, newest),
        at.invalidated(id).cache is Some ==> newest < u64::MAX,
        after.anchored(at.invalidated(id), newest),
        fuel >= PROBE_LIMIT + 3,
    ensures
        ({
            let (now, result) = delete_on_delete::<E>(at, id, Ok(()));
            let run = run_read(after, now, read_start::<T, E>(now), fuel);
            &&& result == Ok::<(), TransactionalObjectError<E>>(())
            &&& now.cache is Some ==> now.cache->0.id != id
            &&& run is Some
            &&& newest != id
            &&& run->0.result == before.value(at, newest)
        }),
{
    let now = at.invalidated(id);
    lemma_same_place(after, at, now, newest);
    lemma_read_finds_newest(after, now, newest, fuel);
    assert(after.holds(at, newest as int));
}

/// One exchange of a reader with the store: the reply it got and what was known of the latest
/// version when the reply came in, which other readers and writers may have changed meanwhile.
pub enum Exchange<E> {
    Got {
        at: ProtocolView,
        request: GetRequestView,
        reply: Result<FetchedObjectView, StoreError<E>>,
    },
    Listed { at: ProtocolView, reply: Result<Seq<ObjectMetadata>, StoreError<E>> },
}

impl<E> Exchange<E> {
    /// Whether this is an exchange about the same object.
    pub open spec fn about(self, place: ProtocolView) -> bool {
        let at = match self {
            Exchange::Got { at, .. } => at,
            Exchange::Listed { at, .. } => at,
        };
        at.dir == place.dir && at.suffix == place.suffix
    }

    /// Whether the store sent `version` in this exchange, or said that it is not modified.
    pub open spec fn confirms(self, place: ProtocolView, version: CachedLatestView) -> bool {
        match self {
            Exchange::Got { request, reply: Ok(object), .. } => {
                &&& request.path == place.path(version.id)
                &&& object.bytes == version.bytes
                &&& object.version.e_tag == version.e_tag
            },
            Exchange::Got { request, reply: Err(e), .. } => {
                &&& e.kind == StoreErrorKind::NotModified
                &&& version.e_tag is Some
                &&& request == place.revalidate(version)
            },
            Exchange::Listed { .. } => false,
        }
    }
}

/// Whether one of `exchanges` confirms `version`.
pub open spec fn confirmed<E>(
    place: ProtocolView,
    exchanges: Seq<Exchange<E>>,
    version: CachedLatestView,
) -> bool {
    exists|i: int|
        0 <= i < exchanges.len() && (#[trigger] exchanges[i]).confirms(place, version)
}

/// What a reader does next that started with `first` and has had `exchanges`; none where these are
/// not replies to what it asked for.
pub open spec fn step_after<T, E>(
    first: ReadLatestStepView<T, E>,
    exchanges: Seq<Exchange<E>>,
) -> Option<ReadLatestStepView<T, E>>
    decreases exchanges.len(),
{
    if exchanges.len() == 0 {
        Some(first)
    } else {
        match (step_after(first, exchanges.drop_last()), exchanges.last()) {
            (
                Some(ReadLatestStepView::Get { request, pending }),
                Exchange::Got { at, request: asked, reply },
            ) => if asked == request {
                Some(read_on_get::<T, E>(at, pending, reply).1)
            } else {
                None
            },
            (Some(ReadLatestStepView::List { .. }), Exchange::Listed { at, reply }) => Some(
                read_on_list::<T, E>(at, reply),
            ),
            _ => None,
        }
    }
}

proof fn lemma_confirmed_stays<E>(
    place: ProtocolView,
    exchanges: Seq<Exchange<E>>,
    version: CachedLatestView,
)
    requires
        exchanges.len() > 0,
        confirmed(place, exchanges.drop_last(), version),
    ensures
        confirmed(place, exchanges, version),
{
    let front = exchanges.drop_last();
    let i = choose|i: int|
        0 <= i < front.len() && (#[trigger] front[i]).confirms(place, version);
    assert(exchanges[i] == front[i]);
}

/// A version that a reader is about to decode was sent or confirmed by the store during that read,
/// and so was every version that a walk found.
proof fn lemma_steps_are_confirmed<T, E>(start: ProtocolView, exchanges: Seq<Exchange<E>>)
    requires
        forall|i: int| 0 <= i < exchanges.len() ==> (#[trigger] exchanges[i]).about(start),
    ensures
        match step_after(read_start::<T, E>(start), exchanges) {
            Some(ReadLatestStepView::Get { request, pending }) => {
                &&& request == pending.request(start)
                &&& pending matches PendingGetView::Probe(probe) ==> {
                    &&& probe.found >= 0
                    &&& probe.found > 0 ==> confirmed(start, exchanges, probe.cur)
                }
            },
            Some(ReadLatestStepView::Decode(pending)) => confirmed(
                start,
                exchanges,
                pending.version,
            ),
            _ => true,
        },
    decreases exchanges.len(),
{
    if exchanges.len() > 0 {
        let front = exchanges.drop_last();
        assert forall|i: int| 0 <= i < front.len() implies (#[trigger] front[i]).about(start) by {
            assert(front[i] == exchanges[i]);
        }
        lemma_steps_are_confirmed::<T, E>(start, front);
        let last = exchanges[exchanges.len() - 1];
        assert(last.about(start));
        match (step_after(read_start::<T, E>(start), front), last) {
            (
                Some(ReadLatestStepView::Get { request, pending }),
                Exchange::Got { at, request: asked, reply },
            ) => {
                match pending {
                    PendingGetView::Probe(probe) => {
                        if probe.found > 0 {
                            lemma_confirmed_stays(start, exchanges, probe.cur);
                        }
                    },
                    PendingGetView::Listed(_) => {},
                }
            },
            _ => {},
        }
    }
}

/// What a reader gives back is never taken from memory alone. Whatever others do meanwhile, the
/// version that it decodes was sent by the store during that read, or the store said during that
/// read that it is not modified.
pub proof fn lemma_read_is_fresh<T, E>(
    start: ProtocolView,
    exchanges: Seq<Exchange<E>>,
    pending: PendingDecodeView,
)
    requires
        forall|i: int| 0 <= i < exchanges.len() ==> (#[trigger] exchanges[i]).about(start),
        step_after(read_start::<T, E>(start), exchanges) == Some(
            ReadLatestStepView::<T, E>::Decode(pending),
        ),
    ensures
        confirmed(start, exchanges, pending.version),
{
    lemma_steps_are_confirmed::<T, E>(start, exchanges);
}

/// What was seen of the latest version never moves back: seeing a version keeps the later one.
pub proof fn lemma_seen_moves_forward(at: ProtocolView, candidate: CachedLatestView)
    ensures
        ({
            let now = at.cached(candidate);
            &&& now.dir == at.dir && now.suffix == at.suffix
            &&& now.cache is Some
            &&& now.cache->0.id >= candidate.id
            &&& at.cache is Some ==> now.cache->0.id >= at.cache->0.id
            &&& now.cache == at.cache || now.cache == Some(candidate)
        }),
{
}

/// A reply to a reader moves what was seen of the latest version forward or leaves it, except that
/// it is forgotten where the store said that just this version is not there.
pub proof fn lemma_reply_moves_forward<T, E>(
    at: ProtocolView,
    pending: PendingGetView,
    reply: Result<FetchedObjectView, StoreError<E>>,
)
    requires
        pending.valid(),
    ensures
        ({
            let now = read_on_get::<T, E>(at, pending, reply).0;
            &&& now.dir == at.dir && now.suffix == at.suffix
            &&& at.cache is Some && now.cache is Some ==> now.cache->0.id >= at.cache->0.id
            &&& at.cache is Some && now.cache is None ==> {
                &&& pending.request(at).path == at.path(at.cache->0.id)
                &&& reply is Err
                &&& reply->Err_0.kind == StoreErrorKind::NotFound
            }
        }),
{
}

} // verus!

//! The decisions of the garbage collectors.
use slatedb_objects::compactions_gc::{CompactionsGcTask, CompactionsStep, PendingListing};
use slatedb_objects::gc::{
    is_older_than, retain_allowed_by_gc_filter, Collected, GarbageCollectorDirectoryOptions,
};
use slatedb_objects::store::{IdentifiedObjectMetadata, ObjectMetadata};
use slatedb_objects::time::{Duration, TimeDelta, Timestamp};
use slatedb_objects::wal_gc::{
    PendingWalDeletion, SsTableId, WalCollected, WalGcMode, WalGcTask, WalReferences, WalStep,
};

fn at(secs: i64) -> Timestamp {
    Timestamp::new(secs, 0).unwrap()
}

fn options(min_age: u64, dry_run: bool) -> GarbageCollectorDirectoryOptions {
    GarbageCollectorDirectoryOptions {
        interval: None,
        min_age: Duration::from_secs(min_age),
        dry_run,
        max_interval: None,
        list_cache_ttl: Some(Duration::from_secs(9)),
    }
}

fn object(name: &str, modified: i64, size: u64) -> ObjectMetadata {
    ObjectMetadata { location: name.to_string(), last_modified: at(modified), size }
}

fn wal(id: u64, modified: i64, size: u64) -> IdentifiedObjectMetadata<SsTableId> {
    IdentifiedObjectMetadata {
        id: SsTableId::Wal(id),
        metadata: object(&format!("wal/{}", id), modified, size),
    }
}

fn compactions(id: u64, modified: i64) -> IdentifiedObjectMetadata<u64> {
    IdentifiedObjectMetadata { id, metadata: object(&format!("c/{}", id), modified, 1) }
}

fn selected(
    task: &WalGcTask,
    last_compacted: u64,
    now: i64,
    listing: Vec<IdentifiedObjectMetadata<SsTableId>>,
    manifests: Vec<WalReferences>,
) -> Vec<u64> {
    match task.collect::<String>(Ok(last_compacted)) {
        WalStep::List { list_cache_ttl, pending } => {
            assert_eq!(Some(Duration::from_secs(9)), list_cache_ttl);
            match task.collect_on_list::<String>(pending, at(now), Ok(listing), &manifests) {
                WalStep::Filter { pending } => {
                    pending.files().iter().map(|file| file.id.unwrap_wal_id()).collect()
                }
                _ => panic!("expected a selection"),
            }
        }
        _ => panic!("expected a listing"),
    }
}

fn pending_listing(task: &CompactionsGcTask, latest: u64) -> PendingListing {
    match task.collect::<String>(Ok(Some(latest)), Duration::from_secs(300)) {
        CompactionsStep::List { pending, .. } => pending,
        _ => panic!("expected a listing"),
    }
}

fn log() -> Vec<IdentifiedObjectMetadata<SsTableId>> {
    vec![wal(1, 0, 5), wal(2, 0, 0), wal(3, 90, 5), wal(4, 89, 5), wal(5, 0, 7), wal(6, 0, 1)]
}

#[test]
fn wal_files_go_below_the_replay_id_once_old_and_unreferenced() {
    let task = WalGcTask::new(options(10, false), WalGcMode::Regular);
    // At 100, file 3 is exactly as old as it must exceed; file 6 is not below the replay id.
    assert_eq!(vec![1, 4, 5], selected(&task, 6, 100, log(), vec![]));
    let manifests = vec![
        WalReferences { wal_ids: vec![] },
        WalReferences { wal_ids: vec![9, 5] },
    ];
    assert_eq!(vec![1, 4], selected(&task, 6, 100, log(), manifests));
    assert_eq!(Vec::<u64>::new(), selected(&task, 1, 100, log(), vec![]));
    assert_eq!("WAL", task.resource());
}

#[test]
fn wal_fences_are_the_empty_files() {
    let task = WalGcTask::new(options(10, false), WalGcMode::Fence);
    assert_eq!(vec![2], selected(&task, 6, 100, log(), vec![]));
    let manifests = vec![WalReferences { wal_ids: vec![2] }];
    assert_eq!(Vec::<u64>::new(), selected(&task, 6, 100, log(), manifests));
    assert_eq!("WAL fence", task.resource());
}

#[test]
fn wal_modes_split_the_garbage() {
    let regular = WalGcTask::new(options(10, false), WalGcMode::Regular);
    let fence = WalGcTask::new(options(10, false), WalGcMode::Fence);
    let mut both = selected(&regular, 9, 100, log(), vec![]);
    both.extend(selected(&fence, 9, 100, log(), vec![]));
    both.sort();
    assert_eq!(vec![1, 2, 4, 5, 6], both);
}

#[test]
fn wal_eligibility_needs_age_and_no_reference() {
    let min_age = TimeDelta { secs: 10, nanos: 0 };
    let eligible = |file: &IdentifiedObjectMetadata<SsTableId>, now: i64, ids: Vec<u64>| {
        WalGcTask::is_wal_sst_eligible_for_deletion(
            &at(now),
            file,
            &min_age,
            &vec![WalReferences { wal_ids: ids }],
        )
    };
    assert!(eligible(&wal(1, 0, 5), 11, vec![2]));
    assert!(!eligible(&wal(1, 0, 5), 10, vec![2]));
    assert!(!eligible(&wal(1, 0, 5), 11, vec![1, 2]));
    assert!(!eligible(&wal(1, 50, 5), 11, vec![]));
}

fn wal_delete(task: &WalGcTask, allowed: Option<Vec<ObjectMetadata>>) -> PendingWalDeletion {
    match task.collect::<String>(Ok(9)) {
        WalStep::List { pending, .. } => {
            match task.collect_on_list::<String>(pending, at(100), Ok(log()), &vec![]) {
                WalStep::Filter { pending } => {
                    match task.collect_on_filter::<String>(pending, allowed) {
                        WalStep::Delete { skipped, pending } => {
                            let ids: &Vec<SsTableId> =
                                if task.wal_options.dry_run { &skipped } else { pending.ids() };
                            assert_eq!(pending.found(), ids.len());
                            assert_eq!(pending.found(), skipped.len() + pending.ids().len());
                            pending
                        }
                        _ => panic!("expected deletions"),
                    }
                }
                _ => panic!("expected a selection"),
            }
        }
        _ => panic!("expected a listing"),
    }
}

#[test]
fn wal_deletions_count_for_their_mode() {
    let ids = |ids: &[u64]| ids.iter().map(|id| SsTableId::Wal(*id)).collect::<Vec<_>>();
    let task = WalGcTask::new(options(10, false), WalGcMode::Regular);
    let pending = wal_delete(&task, None);
    assert_eq!((4, ids(&[1, 4, 5, 6])), (pending.found(), pending.ids().clone()));
    // Only what was deleted is forgotten and counted.
    let outcomes = vec![Ok(()), Err("busy".to_string()), Ok(()), Err("gone".to_string())];
    assert_eq!(
        WalStep::Done(Ok(WalCollected {
            collected: Collected { found: 4, deleted: 2, forget: ids(&[1, 5]) },
            gc_wal_count: 2,
            gc_wal_fence_count: 0,
        })),
        task.collect_on_delete(pending, &outcomes)
    );

    let fence = WalGcTask::new(options(10, false), WalGcMode::Fence);
    let pending = wal_delete(&fence, None);
    assert_eq!(
        WalStep::Done(Ok(WalCollected {
            collected: Collected { found: 1, deleted: 1, forget: ids(&[2]) },
            gc_wal_count: 0,
            gc_wal_fence_count: 1,
        })),
        fence.collect_on_delete::<String>(pending, &vec![Ok(())])
    );
}

#[test]
fn wal_dry_run_and_filter_delete_nothing() {
    let dry = WalGcTask::new(options(10, true), WalGcMode::Regular);
    let pending = wal_delete(&dry, None);
    assert_eq!((4, vec![]), (pending.found(), pending.ids().clone()));
    assert_eq!(
        WalStep::Done(Ok(WalCollected {
            collected: Collected { found: 4, deleted: 0, forget: vec![] },
            gc_wal_count: 0,
            gc_wal_fence_count: 0,
        })),
        dry.collect_on_delete::<String>(pending, &vec![])
    );
    let task = WalGcTask::new(options(10, false), WalGcMode::Regular);
    let pending = wal_delete(&task, Some(vec![]));
    assert_eq!((0, vec![]), (pending.found(), pending.ids().clone()));
    let pending = wal_delete(&task, Some(vec![object("wal/4", 89, 5), object("wal/1", 1, 5)]));
    assert_eq!((1, vec![SsTableId::Wal(4)]), (pending.found(), pending.ids().clone()));
}

#[test]
fn wal_failures_end_the_sweep() {
    let task = WalGcTask::new(options(10, false), WalGcMode::Regular);
    assert_eq!(
        WalStep::Done(Err("no manifest".to_string())),
        task.collect(Err("no manifest".to_string()))
    );
    match task.collect::<String>(Ok(3)) {
        WalStep::List { pending, .. } => assert_eq!(
            WalStep::Done(Err("no listing".to_string())),
            task.collect_on_list(pending, at(0), Err("no listing".to_string()), &vec![])
        ),
        _ => panic!("expected a listing"),
    }
}

#[test]
fn compactions_sweep_selects_before_the_latest() {
    let task = CompactionsGcTask::new(options(10, false), true);
    let listing = vec![compactions(4, 0), compactions(2, 0), compactions(3, 90), compactions(5, 0)];
    let pending = pending_listing(&task, 5);
    match task.collect_on_list::<String>(pending, at(100), Ok(listing)) {
        CompactionsStep::Sweep { found_garbage, boundary, pending } => {
            assert_eq!((true, Some(4)), (found_garbage, boundary));
            match task.collect_on_boundary::<String>(pending, Ok(())) {
                CompactionsStep::Filter { pending } => {
                    let ids: Vec<u64> = pending.files().iter().map(|file| file.id).collect();
                    assert_eq!(vec![4, 2], ids);
                }
                _ => panic!("expected the filter"),
            }
        }
        _ => panic!("expected a sweep"),
    }
    let silent = CompactionsGcTask::new(options(10, false), false);
    match silent.collect_on_list::<String>(pending, at(100), Ok(vec![compactions(1, 0)])) {
        CompactionsStep::Sweep { found_garbage, boundary, .. } => {
            assert_eq!((true, None), (found_garbage, boundary));
        }
        _ => panic!("expected a sweep"),
    }
    match task.collect_on_list::<String>(pending, at(100), Ok(vec![compactions(5, 0)])) {
        CompactionsStep::Sweep { found_garbage, boundary, .. } => {
            assert_eq!((false, None), (found_garbage, boundary));
        }
        _ => panic!("expected a sweep"),
    }
    assert_eq!("Compactions", task.resource());
}

#[test]
fn compactions_listing_is_refreshed_after_two_sweeps() {
    let floor = |interval: Option<u64>, default: u64| {
        let mut with = options(10, false);
        with.interval = interval.map(Duration::from_secs);
        let task = CompactionsGcTask::new(with, true);
        match task.collect::<String>(Ok(Some(7)), Duration::from_secs(default)) {
            CompactionsStep::List { list_cache_ttl, refresh_floor, pending } => {
                assert_eq!(Some(Duration::from_secs(9)), list_cache_ttl);
                assert_eq!(pending_listing(&task, 7), pending);
                refresh_floor.as_secs()
            }
            _ => panic!("expected a listing"),
        }
    };
    assert_eq!(600, floor(None, 300));
    assert_eq!(60, floor(Some(10), 300));
    assert_eq!(60, floor(Some(30), 300));
    assert_eq!(62, floor(Some(31), 300));
}

#[test]
fn compactions_failures_end_the_sweep() {
    let task = CompactionsGcTask::new(options(10, false), true);
    let failed = || "failed".to_string();
    let done = || CompactionsStep::Done(Err(failed()));
    assert_eq!(done(), task.collect(Err(failed()), Duration::from_secs(1)));
    let pending = pending_listing(&task, 5);
    assert_eq!(done(), task.collect_on_list(pending, at(100), Err(failed())));
    match task.collect_on_list::<String>(pending, at(100), Ok(vec![compactions(1, 0)])) {
        CompactionsStep::Sweep { pending, .. } => {
            assert_eq!(done(), task.collect_on_boundary(pending, Err(failed())))
        }
        _ => panic!("expected a sweep"),
    }
}

#[test]
fn compactions_count_only_successes_but_forget_all() {
    let task = CompactionsGcTask::new(options(10, false), true);
    let pending = pending_listing(&task, 5);
    let listing = vec![compactions(1, 0), compactions(2, 0)];
    match task.collect_on_list::<String>(pending, at(100), Ok(listing)) {
        CompactionsStep::Sweep { pending, .. } => {
            let covered = match task.collect_on_boundary::<String>(pending, Ok(())) {
                CompactionsStep::Filter { pending } => pending,
                _ => panic!("expected the filter"),
            };
            match task.collect_on_filter::<String>(covered, None) {
                CompactionsStep::Delete { ids, pending } => {
                    assert_eq!(vec![1, 2], ids);
                    assert_eq!(&ids, pending.ids());
                    let outcomes = vec![Err("busy".to_string()), Ok(())];
                    assert_eq!(
                        CompactionsStep::Done(Ok(Collected {
                            found: 2,
                            deleted: 1,
                            forget: vec![1, 2]
                        })),
                        task.collect_on_delete(pending, &outcomes)
                    );
                }
                _ => panic!("expected deletions"),
            }
        }
        _ => panic!("expected a sweep"),
    }
}

#[test]
fn tasks_show_their_options() {
    let task = CompactionsGcTask::new(options(10, false), true);
    let shown = format!("{:?}", task);
    assert!(shown.starts_with("CompactionsGcTask { compactions_options: "));
    assert!(shown.ends_with("boundary_files_enabled: true }"));
    let task = WalGcTask::new(options(10, false), WalGcMode::Fence);
    let shown = format!("{:?}", task);
    assert!(shown.starts_with("WalGcTask { wal_options: "));
    assert!(shown.ends_with("mode: Fence }"));
}

#[test]
fn filter_keeps_what_is_allowed_in_order() {
    let candidates = vec![compactions(1, 0), compactions(2, 5), compactions(3, 0)];
    let kept = |allowed: Option<Vec<ObjectMetadata>>| -> Vec<u64> {
        retain_allowed_by_gc_filter(&candidates, &allowed).iter().map(|file| file.id).collect()
    };
    assert_eq!(vec![1, 2, 3], kept(None));
    assert_eq!(Vec::<u64>::new(), kept(Some(vec![])));
    let allowed = vec![object("c/3", 0, 1), object("c/2", 4, 1), object("c/1", 0, 1)];
    assert_eq!(vec![1, 3], kept(Some(allowed)));
}

#[test]
fn age_must_exceed_the_minimum() {
    let file = object("x", 0, 1);
    let min_age = TimeDelta { secs: 10, nanos: 0 };
    assert!(!is_older_than(at(10), &file, &min_age));
    assert!(is_older_than(Timestamp::new(10, 1).unwrap(), &file, &min_age));
    assert!(!is_older_than(at(-100), &file, &min_age));
}

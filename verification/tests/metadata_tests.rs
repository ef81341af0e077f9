use compaction_core::ingest::select_assigned_collections;
use compaction_core::log::CollectionRecord;
use compaction_core::metadata::Collection;
use compaction_core::metadata::CollectionCache;
use compaction_core::metadata::MetadataCache;
use compaction_core::metadata::Segment;
use compaction_core::metadata::SegmentCache;
use compaction_core::metadata::SysDbError;
use compaction_core::metadata::resolve_unique;

fn cache() -> MetadataCache<CollectionCache, SegmentCache> {
    MetadataCache::new(CollectionCache::new(), SegmentCache::new())
}

#[test]
fn resolve_unique_takes_only_singleton_answers() {
    let one: Result<Vec<u32>, SysDbError> = Ok(vec![5]);
    assert_eq!(resolve_unique(one), Some(5));
    let two: Result<Vec<u32>, SysDbError> = Ok(vec![5, 6]);
    assert_eq!(resolve_unique(two), None);
    let none: Result<Vec<u32>, SysDbError> = Ok(vec![]);
    assert_eq!(resolve_unique(none), None);
    let err: Result<Vec<u32>, SysDbError> = Err(SysDbError::Unavailable);
    assert_eq!(resolve_unique(err), None);
}

#[test]
fn metadata_cache_memoizes_unique_answers() {
    let mut mc = cache();
    assert!(mc.get_collection(&7).is_none());
    let admitted = mc.admit_fetched_collection(Ok(vec![Collection {
        id: 7,
        name: "c".to_string(),
    }]));
    assert_eq!(admitted.unwrap().id, 7);
    assert_eq!(mc.get_collection(&7).unwrap().name, "c");

    // an ambiguous answer is not cached
    let ambiguous = mc.admit_fetched_collection(Ok(vec![
        Collection { id: 8, name: "x".to_string() },
        Collection { id: 8, name: "y".to_string() },
    ]));
    assert!(ambiguous.is_none());
    assert!(mc.get_collection(&8).is_none());

    // segments go through the same gate
    let admitted = mc.admit_fetched_segment(Ok(vec![Segment { id: 9, collection_id: 7 }]));
    assert_eq!(admitted.unwrap().collection_id, 7);
    assert_eq!(mc.get_segment(&9).unwrap().collection_id, 7);
    let failed = mc.admit_fetched_segment(Err(SysDbError::Unavailable));
    assert!(failed.is_none());
}

#[test]
fn assignment_keeps_only_this_workers_collections() {
    let collections = vec![
        CollectionRecord { id: "c1".to_string(), tenant_id: "t1".to_string() },
        CollectionRecord { id: "c2".to_string(), tenant_id: "t1".to_string() },
        CollectionRecord { id: "c3".to_string(), tenant_id: "t2".to_string() },
    ];
    let assignments = vec![
        Some("10.0.0.1".to_string()),
        None,
        Some("10.0.0.2".to_string()),
    ];
    let mine = select_assigned_collections(collections, assignments, &"10.0.0.1".to_string());
    assert_eq!(mine.len(), 1);
    assert_eq!(mine[0].id, "c1");
}

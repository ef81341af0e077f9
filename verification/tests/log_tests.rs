use compaction_core::cache::Cache;
use compaction_core::cache::LogCache;
use compaction_core::cache::LogRecordCache;
use compaction_core::log::InMemoryLog;
use compaction_core::log::LogRecord;

fn record(collection: &str, tenant: &str, id: i64, offset: i64) -> LogRecord {
    LogRecord {
        collection_id: String::from(collection),
        tenant_id: String::from(tenant),
        id,
        offset,
    }
}

#[test]
fn test_in_memory_log() {
    let mut log = InMemoryLog::new();
    let log_record = LogRecord {
        collection_id: String::from("collection1"),
        tenant_id: String::from("tenant1"),
        id: 1,
        offset: 0,
    };
    log.push(log_record.clone());
    let log_record2 = LogRecord {
        collection_id: String::from("collection1"),
        tenant_id: String::from("tenant1"),
        id: 2,
        offset: 0,
    };
    log.push(log_record2.clone());
    let log_record3 = LogRecord {
        collection_id: String::from("collection2"),
        tenant_id: String::from("tenant1"),
        id: 3,
        offset: 0,
    };
    log.push(log_record3.clone());
    let log_record4 = LogRecord {
        collection_id: String::from("collection2"),
        tenant_id: String::from("tenant2"),
        id: 4,
        offset: 0,
    };
    log.push(log_record4.clone());
}

#[test]
fn in_memory_log_get_reads_a_window() {
    let mut log = InMemoryLog::new();
    log.push(record("c1", "t1", 1, 0));
    log.push(record("c1", "t1", 2, 1));
    log.push(record("c1", "t1", 3, 2));
    log.push(record("c2", "t2", 4, 0));

    let got = log.get(String::from("c1"), 1, 2).unwrap();
    assert_eq!(got.len(), 2);
    assert_eq!(got[0].id, 2);
    assert_eq!(got[1].id, 3);

    // a window past the end is clipped
    let got = log.get(String::from("c1"), 2, 10).unwrap();
    assert_eq!(got.len(), 1);
    assert_eq!(got[0].id, 3);

    // an unknown collection has no queue at all
    assert!(log.get(String::from("missing"), 0, 10).is_none());
}

#[test]
fn in_memory_log_collections_are_deduplicated() {
    let mut log = InMemoryLog::new();
    log.push(record("c1", "t1", 1, 0));
    log.push(record("c1", "t1", 2, 1));
    log.push(record("c2", "t1", 3, 0));
    log.push(record("c2", "t2", 4, 1));

    let mut pairs: Vec<(String, String)> = log
        .get_collections()
        .into_iter()
        .map(|c| (c.id, c.tenant_id))
        .collect();
    pairs.sort();
    assert_eq!(
        pairs,
        vec![
            (String::from("c1"), String::from("t1")),
            (String::from("c2"), String::from("t1")),
            (String::from("c2"), String::from("t2")),
        ]
    );
}

#[test]
fn log_cache_last_insert_wins() {
    let mut cache = LogCache::new(LogRecordCache::new());
    cache.insert_log(record("c1", "t1", 1, 7));
    cache.insert_log(record("c1", "t1", 2, 7));
    let got = cache.get_log(&7).unwrap();
    assert_eq!(got.id, 2);
    assert!(cache.get_log(&8).is_none());
}

#[test]
fn log_cache_batch_read_skips_gaps() {
    let mut cache = LogCache::new(LogRecordCache::new());
    cache.insert_log(record("c1", "t1", 10, 0));
    cache.insert_log(record("c1", "t1", 12, 2));
    let logs = cache.get_logs(0, 3);
    assert_eq!(logs.len(), 2);
    assert_eq!(logs[0].id, 10);
    assert_eq!(logs[1].id, 12);
}

#[test]
fn raw_cache_get_leaves_bindings_alone() {
    let mut cache = LogRecordCache::new();
    cache.insert(3, record("c", "t", 1, 3));
    assert_eq!(cache.get(&3).unwrap().id, 1);
    assert_eq!(cache.get(&3).unwrap().id, 1);
    assert!(cache.get(&4).is_none());
}

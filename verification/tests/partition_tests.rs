use compaction_core::data_chunk::DataChunk;
use compaction_core::partition::ErrorCodes;
use compaction_core::partition::PartitionError;
use compaction_core::partition::PartitionInput;
use compaction_core::partition::PartitionOperator;
use compaction_core::types::EmbeddingRecord;
use compaction_core::types::Operation;
use std::str::FromStr;
use uuid::Uuid;

fn test_records() -> Vec<EmbeddingRecord> {
    let collection_uuid_1 = Uuid::from_str("00000000-0000-0000-0000-000000000001").unwrap();
    let collection_uuid_2 = Uuid::from_str("00000000-0000-0000-0000-000000000002").unwrap();
    vec![
        EmbeddingRecord {
            id: "embedding_id_1".to_string(),
            seq_id: 1,
            operation: Operation::Add,
            collection_id: collection_uuid_1.as_u128(),
        },
        EmbeddingRecord {
            id: "embedding_id_2".to_string(),
            seq_id: 2,
            operation: Operation::Add,
            collection_id: collection_uuid_1.as_u128(),
        },
        EmbeddingRecord {
            id: "embedding_id_1".to_string(),
            seq_id: 3,
            operation: Operation::Add,
            collection_id: collection_uuid_2.as_u128(),
        },
    ]
}

#[test]
fn test_partition_operator() {
    let data = test_records();

    // Test group size is larger than the number of records
    let chunk = DataChunk::new(data.clone());
    let operator = PartitionOperator::new();
    let input = PartitionInput::new(chunk, 4);
    let result = operator.run(&input).unwrap();
    assert_eq!(result.records.len(), 1);
    assert_eq!(result.records[0].len(), 3);

    // Test group size is the same as the number of records
    let chunk = DataChunk::new(data.clone());
    let operator = PartitionOperator::new();
    let input = PartitionInput::new(chunk, 3);
    let result = operator.run(&input).unwrap();
    assert_eq!(result.records.len(), 1);
    assert_eq!(result.records[0].len(), 3);

    // Test group size is smaller than the number of records
    let chunk = DataChunk::new(data.clone());
    let operator = PartitionOperator::new();
    let input = PartitionInput::new(chunk, 2);
    let mut result = operator.run(&input).unwrap();

    // The result can be 1 or 2 groups depending on the order of the records.
    assert!(result.records.len() == 2 || result.records.len() == 1);
    if result.records.len() == 2 {
        result.records.sort_by(|a, b| a.len().cmp(&b.len()));
        assert_eq!(result.records[0].len(), 1);
        assert_eq!(result.records[1].len(), 2);
    } else {
        assert_eq!(result.records[0].len(), 3);
    }

    // Test group size is smaller than the number of records
    let chunk = DataChunk::new(data.clone());
    let operator = PartitionOperator::new();
    let input = PartitionInput::new(chunk, 1);
    let mut result = operator.run(&input).unwrap();
    assert_eq!(result.records.len(), 2);
    result.records.sort_by(|a, b| a.len().cmp(&b.len()));
    assert_eq!(result.records[0].len(), 1);
    assert_eq!(result.records[1].len(), 2);
}

#[test]
fn scenario_threshold_two_keeps_key_groups_whole() {
    // input batch [{id:"a",rec:1},{id:"b",rec:2},{id:"a",rec:3}], threshold 2
    let data = vec![
        EmbeddingRecord { id: "a".to_string(), seq_id: 1, operation: Operation::Add, collection_id: 1 },
        EmbeddingRecord { id: "b".to_string(), seq_id: 2, operation: Operation::Add, collection_id: 1 },
        EmbeddingRecord { id: "a".to_string(), seq_id: 3, operation: Operation::Add, collection_id: 1 },
    ];
    let chunk = DataChunk::new(data);
    let operator = PartitionOperator::new();
    let result = operator.partition(&chunk, 2);

    // one or two partitions, but always exactly three visible records in all
    assert!(result.len() == 1 || result.len() == 2);
    let total: usize = result.iter().map(|c| c.len()).sum();
    assert_eq!(total, 3);

    // no "a" record is split across partitions, and no index shows twice
    let mut a_partition: Option<usize> = None;
    let mut seen = [false; 3];
    for (p, part) in result.iter().enumerate() {
        for i in 0..part.total_len() {
            if part.is_visible(i) {
                assert!(!seen[i]);
                seen[i] = true;
                if part.get_record(i).id == "a" {
                    match a_partition {
                        Some(q) => assert_eq!(q, p),
                        None => a_partition = Some(p),
                    }
                }
            }
        }
    }
    // no omissions either
    assert!(seen.iter().all(|s| *s));
}

#[test]
fn partition_of_empty_batch_is_empty() {
    let chunk = DataChunk::new(Vec::new());
    let operator = PartitionOperator::new();
    let result = operator.partition(&chunk, 2);
    assert_eq!(result.len(), 0);
}

#[test]
fn partition_single_key_never_splits() {
    let data = vec![
        EmbeddingRecord { id: "k".to_string(), seq_id: 1, operation: Operation::Add, collection_id: 1 },
        EmbeddingRecord { id: "k".to_string(), seq_id: 2, operation: Operation::Add, collection_id: 1 },
        EmbeddingRecord { id: "k".to_string(), seq_id: 3, operation: Operation::Add, collection_id: 1 },
    ];
    let chunk = DataChunk::new(data);
    let operator = PartitionOperator::new();
    // even with threshold 1, records sharing the key stay together
    let result = operator.partition(&chunk, 1);
    assert_eq!(result.len(), 1);
    assert_eq!(result[0].len(), 3);
}

#[test]
fn partitions_before_the_last_reach_the_threshold() {
    // four distinct keys, threshold two: a partition is flushed as soon as
    // it gathers two records, so only the final one may be smaller
    let data = vec![
        EmbeddingRecord { id: "a".to_string(), seq_id: 1, operation: Operation::Add, collection_id: 1 },
        EmbeddingRecord { id: "b".to_string(), seq_id: 2, operation: Operation::Add, collection_id: 1 },
        EmbeddingRecord { id: "c".to_string(), seq_id: 3, operation: Operation::Add, collection_id: 1 },
        EmbeddingRecord { id: "d".to_string(), seq_id: 4, operation: Operation::Add, collection_id: 1 },
        EmbeddingRecord { id: "e".to_string(), seq_id: 5, operation: Operation::Add, collection_id: 1 },
    ];
    let chunk = DataChunk::new(data);
    let operator = PartitionOperator::new();
    let result = operator.partition(&chunk, 2);
    assert_eq!(result.len(), 3);
    for part in result.iter().take(result.len() - 1) {
        assert!(part.len() >= 2);
    }
    assert_eq!(result[result.len() - 1].len(), 1);
}

#[test]
fn determine_partition_size_clamps_to_batch() {
    let operator = PartitionOperator::new();
    assert_eq!(operator.determine_partition_size(3, 10), 3);
    assert_eq!(operator.determine_partition_size(10, 3), 3);
    assert_eq!(operator.determine_partition_size(5, 5), 5);
}

#[test]
fn partition_error_reports_internal() {
    let err = PartitionError::FailedToPartition;
    assert_eq!(err.code(), ErrorCodes::Internal);
}

#[test]
fn partitions_share_the_record_data() {
    let data = test_records();
    let chunk = DataChunk::new(data);
    let operator = PartitionOperator::new();
    let result = operator.partition(&chunk, 1);
    for part in result.iter() {
        assert_eq!(part.total_len(), 3);
        assert_eq!(part.get_record(0).id, "embedding_id_1");
        assert_eq!(part.get_record(1).id, "embedding_id_2");
        assert_eq!(part.get_record(2).id, "embedding_id_1");
    }
}

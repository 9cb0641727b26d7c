use buzz::error::BuzzError;
use buzz::models::{RecordBatch, SizedFile};
use buzz::object_file::ObjectFile;
use buzz::parquet_exec::{
    read_file, drain_stream, ChannelMsg, ColumnChunkMeta, FileMetadata, ParquetExec, RowGroupMeta,
};
use buzz::plan::{LogicalPlan, ScanTable, TableDesc};
use buzz::scanner::{bind_cache, HBeeService, PhysicalPlan, ScanOutcome};
use buzz::schema::{DataType, Field, Schema};

fn batch(rows: usize, tag: u64) -> RecordBatch {
    RecordBatch { schema: test_schema(), num_rows: rows, payload: vec![tag; rows] }
}

fn test_schema() -> Schema {
    Schema {
        fields: vec![
            Field { name: "a".to_owned(), data_type: DataType::Int64, nullable: false },
            Field { name: "b".to_owned(), data_type: DataType::Utf8, nullable: true },
        ],
        metadata: vec![],
    }
}

#[test]
fn test_partition_merge() {
    // a physical plan with 4 partitions collapses into one that carries
    // every batch, in partition order
    let plan = PhysicalPlan {
        schema: test_schema(),
        partitions: vec![
            vec![batch(1, 0)],
            vec![batch(2, 1), batch(3, 1)],
            vec![],
            vec![batch(4, 3)],
        ],
    };
    let service = HBeeService::new();
    match service.execute_query("q".to_owned(), "addr".to_owned(), Ok(plan)) {
        ScanOutcome::Upload { query_id, address, batches } => {
            assert_eq!(query_id, "q");
            assert_eq!(address, "addr");
            assert_eq!(batches.len(), 4);
            let rows: Vec<usize> = batches.iter().map(|b| b.num_rows).collect();
            assert_eq!(rows, vec![1, 2, 3, 4]);
            let tags: Vec<u64> = batches.iter().map(|b| b.payload[0]).collect();
            assert_eq!(tags, vec![0, 1, 1, 3]);
        }
        _ => panic!("a successful run must upload"),
    }
}

#[test]
fn test_zero_partitions_is_failure() {
    let plan = PhysicalPlan { schema: test_schema(), partitions: vec![] };
    let service = HBeeService::new();
    match service.execute_query("q".to_owned(), "addr".to_owned(), Ok(plan)) {
        ScanOutcome::FailAction { query_id, .. } => assert_eq!(query_id, "q"),
        _ => panic!("zero partitions violates the scanner invariant"),
    }
}

#[test]
fn test_scanner_failure_becomes_fail_action() {
    // an optimization failure turns into a FAIL action carrying the reason
    let service = HBeeService::new();
    let outcome = service.execute_query(
        "q7".to_owned(),
        "addr".to_owned(),
        Err(BuzzError::Execution("optimizer gave up".to_owned())),
    );
    match outcome {
        ScanOutcome::FailAction { query_id, reason, .. } => {
            assert_eq!(query_id, "q7");
            assert_eq!(reason, "optimizer gave up");
        }
        _ => panic!("a failed run must send FAIL, not data"),
    }
}

#[test]
fn test_bind_cache_needs_single_leaf() {
    let leaf = LogicalPlan::TableScan {
        source: TableDesc::Scan(ScanTable {
            files: vec![SizedFile { key: "f".to_owned(), length: 10 }],
            schema: test_schema(),
            cache_bound: false,
        }),
    };
    match bind_cache(&leaf).unwrap() {
        LogicalPlan::TableScan { source: TableDesc::Scan(t) } => assert!(t.cache_bound),
        _ => panic!("the leaf must keep its shape"),
    }

    let named = LogicalPlan::TableScan { source: TableDesc::Named("t".to_owned()) };
    match bind_cache(&named) {
        Err(BuzzError::Internal(_)) => {}
        _ => panic!("a plan without a scan leaf must be refused"),
    }
}

#[test]
fn test_worker_and_stream_deliver_in_order() {
    let items: Vec<Result<RecordBatch, String>> =
        vec![Ok(batch(5, 0)), Ok(batch(5, 1))];
    let (msgs, res) = read_file(items);
    assert!(res.is_ok());
    assert_eq!(msgs.len(), 3);
    assert!(matches!(msgs[2], ChannelMsg::End));
    let (batches, res) = drain_stream(msgs);
    assert!(res.is_ok());
    // ten rows, two batches of five, in file order
    assert_eq!(batches.iter().map(|b| b.num_rows).sum::<usize>(), 10);
    let tags: Vec<u64> = batches.iter().map(|b| b.payload[0]).collect();
    assert_eq!(tags, vec![0, 1]);
}

#[test]
fn test_worker_stops_at_decode_error() {
    let items: Vec<Result<RecordBatch, String>> =
        vec![Ok(batch(5, 0)), Err("corrupt page".to_owned()), Ok(batch(5, 2))];
    let (msgs, res) = read_file(items);
    match res {
        Err(BuzzError::Execution(m)) => assert_eq!(m, "corrupt page"),
        _ => panic!("the worker must stop with the decode error"),
    }
    assert_eq!(msgs.len(), 2);
    let (batches, res) = drain_stream(msgs);
    assert_eq!(batches.len(), 1);
    match res {
        Err(BuzzError::Execution(m)) => assert_eq!(m, "corrupt page"),
        _ => panic!("the stream must surface the decode error"),
    }
}

fn object_file(len: u64) -> ObjectFile {
    ObjectFile::new(SizedFile { key: "data".to_owned(), length: len })
}

fn meta_for(len: u64) -> FileMetadata {
    FileMetadata {
        schema: test_schema(),
        row_groups: vec![RowGroupMeta {
            columns: vec![
                ColumnChunkMeta { start: 0, length: len / 2 },
                ColumnChunkMeta { start: len / 2, length: len / 4 },
            ],
        }],
    }
}

#[test]
fn test_try_new_prefetches_footer_and_chunks() {
    let len = 4096u64;
    let exec = ParquetExec::try_new(
        vec![object_file(len)],
        vec![meta_for(len)],
        None,
        2048,
        test_schema(),
    )
    .unwrap();
    assert_eq!(exec.output_partitioning(), 1);
    assert_eq!(exec.batch_size, 2048);
    assert_eq!(exec.projection, vec![0, 1]);
    assert_eq!(exec.schema.fields.len(), 2);
    // hinted: the whole file (shorter than the footer window), then both chunks
    let hints = &exec.files[0].cache.hinted;
    assert_eq!(hints.len(), 3);
    assert_eq!(hints[0], (0, 4096));
    assert_eq!(hints[1], (0, 2048));
    assert_eq!(hints[2], (2048, 1024));
}

#[test]
fn test_try_new_projection_narrows_schema() {
    let len = 1024u64;
    let exec = ParquetExec::try_new(
        vec![object_file(len)],
        vec![meta_for(len)],
        Some(vec![1]),
        512,
        test_schema(),
    )
    .unwrap();
    assert_eq!(exec.schema.fields.len(), 1);
    assert_eq!(exec.schema.fields[0].name, "b");
    // only the selected chunk is hinted after the footer
    assert_eq!(exec.files[0].cache.hinted.len(), 2);
    assert_eq!(exec.files[0].cache.hinted[1], (512, 256));
}

#[test]
fn test_try_new_schema_mismatch_is_plan_error() {
    let len = 1024u64;
    let mut other = meta_for(len);
    other.schema.fields[0].data_type = DataType::Int32;
    match ParquetExec::try_new(vec![object_file(len)], vec![other], None, 512, test_schema()) {
        Err(BuzzError::Plan(_)) => {}
        _ => panic!("a footer schema differing on fields must be refused"),
    }
}

#[test]
fn test_schema_comparison_ignores_metadata() {
    let len = 1024u64;
    let mut meta = meta_for(len);
    meta.schema.metadata.push(("origin".to_owned(), "footer".to_owned()));
    assert!(
        ParquetExec::try_new(vec![object_file(len)], vec![meta], None, 512, test_schema())
            .is_ok()
    );
}

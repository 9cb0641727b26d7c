//! Scenarios across the tiers: plan, scan, upload, merge-side rendezvous.

use buzz::error::BuzzError;
use buzz::hcomb::{FlightServiceImpl, HCombService, QueryOutput};
use buzz::models::{ActionType, Fail, RecordBatch, SizedFile};
use buzz::parquet_exec::{drain_stream, read_file};
use buzz::plan::{CatalogTable, LogicalPlan, ScanTable, TableDesc};
use buzz::planner::{BuzzStep, BuzzStepType, QueryPlanner};
use buzz::scanner::{HBeeService, PhysicalPlan, ScanOutcome};
use buzz::schema::{DataType, Field, Schema};

fn file_schema() -> Schema {
    Schema {
        fields: vec![
            Field { name: "a".to_owned(), data_type: DataType::Int64, nullable: false },
            Field { name: "b".to_owned(), data_type: DataType::Utf8, nullable: true },
        ],
        metadata: vec![],
    }
}

fn batch(rows: usize) -> RecordBatch {
    RecordBatch { schema: file_schema(), num_rows: rows, payload: vec![1; rows] }
}

fn steps() -> Vec<BuzzStep> {
    vec![
        BuzzStep {
            sql: "SELECT * FROM test".to_owned(),
            plan: LogicalPlan::TableScan { source: TableDesc::Named("test".to_owned()) },
            name: "mapper".to_owned(),
            step_type: BuzzStepType::HBee,
        },
        BuzzStep {
            sql: "SELECT * FROM mapper".to_owned(),
            plan: LogicalPlan::TableScan { source: TableDesc::Named("mapper".to_owned()) },
            name: "reducer".to_owned(),
            step_type: BuzzStepType::HComb,
        },
    ]
}

#[test]
fn test_single_file_query_end_to_end() {
    // one catalog file: one zone, one scan plan; the file decodes into two
    // batches of five rows; the combiner's channel ends with all ten rows.
    let mut planner = QueryPlanner::new();
    planner.add_catalog(
        "test",
        CatalogTable {
            tables: vec![ScanTable {
                files: vec![SizedFile { key: "part-0".to_owned(), length: 4096 }],
                schema: file_schema(),
                cache_bound: false,
            }],
            schema: file_schema(),
        },
    );
    let plan = planner.plan("q-single".to_owned(), steps(), 1).unwrap();
    assert_eq!(plan.zones.len(), 1);
    assert_eq!(plan.zones[0].hbee.len(), 1);

    // the scanner decodes the file: two batches of five rows, in file order
    let items: Vec<Result<RecordBatch, String>> = vec![Ok(batch(5)), Ok(batch(5))];
    let (msgs, worker_res) = read_file(items);
    assert!(worker_res.is_ok());
    let (batches, stream_res) = drain_stream(msgs);
    assert!(stream_res.is_ok());

    let scanner = HBeeService::new();
    let physical = PhysicalPlan { schema: file_schema(), partitions: vec![batches] };
    let outcome = scanner.execute_query("q-single".to_owned(), "hcomb-0".to_owned(), Ok(physical));

    // the combiner receives the one expected upload and completes
    let mut flight = FlightServiceImpl::new(HCombService::new());
    flight
        .hcomb_service
        .execute_query("q-single".to_owned(), plan.zones[0].hbee.len(), file_schema())
        .unwrap();
    match outcome {
        ScanOutcome::Upload { query_id, batches, .. } => {
            flight.do_put(&query_id, batches).unwrap();
        }
        _ => panic!("the scan succeeded"),
    }
    let entry = &flight.hcomb_service.queries[0];
    assert!(matches!(entry.output, QueryOutput::Done));
    assert_eq!(entry.batches.len(), 2);
    assert_eq!(entry.batches.iter().map(|b| b.num_rows).sum::<usize>(), 10);
}

#[test]
fn test_scanner_failure_reaches_the_combiner() {
    // the scanner's plan work fails; the combiner receives a FAIL action
    // and the query's stream terminates with the reason — no batch arrives.
    let scanner = HBeeService::new();
    let outcome = scanner.execute_query(
        "q-fail".to_owned(),
        "hcomb-0".to_owned(),
        Err(BuzzError::Execution("optimization failed".to_owned())),
    );

    let mut flight = FlightServiceImpl::new(HCombService::new());
    flight
        .hcomb_service
        .execute_query("q-fail".to_owned(), 1, file_schema())
        .unwrap();

    match outcome {
        ScanOutcome::FailAction { query_id, reason, .. } => {
            // the action travels as {type, body}; the combiner dispatches it
            assert_eq!(ActionType::from_string(&"Fail".to_owned()), ActionType::Fail);
            flight
                .do_action(&"Fail".to_owned(), Some(Fail { query_id, reason }))
                .unwrap();
        }
        _ => panic!("a failed scan must send FAIL"),
    }

    let entry = &flight.hcomb_service.queries[0];
    assert_eq!(entry.batches.len(), 0);
    match &entry.output {
        QueryOutput::Failed(m) => assert_eq!(m, "optimization failed"),
        _ => panic!("the stream must terminate with the remote failure"),
    }
}

#[test]
fn test_action_names() {
    assert_eq!(ActionType::from_string(&"Fail".to_owned()), ActionType::Fail);
    assert_eq!(
        ActionType::from_string(&"HealthCheck".to_owned()),
        ActionType::HealthCheck
    );
    assert_eq!(ActionType::from_string(&"Gossip".to_owned()), ActionType::Unknown);
}

#[test]
fn test_empty_table_cannot_scan() {
    let table = buzz::empty::EmptyTable::new(file_schema());
    assert_eq!(table.get_schema().fields.len(), 2);
    match table.scan(None, 1024) {
        Err(BuzzError::Plan(m)) => {
            assert_eq!(m, "Empty table cannot generate an execution plan")
        }
        _ => panic!("an empty table has no execution plan"),
    }
}

#[test]
fn test_error_messages_carry_through() {
    let e = BuzzError::RemoteFail("scanner 3 died".to_owned());
    assert_eq!(e.message(), "scanner 3 died");
    let e = BuzzError::Plan("no such table".to_owned());
    assert_eq!(e.message(), "no such table");
}

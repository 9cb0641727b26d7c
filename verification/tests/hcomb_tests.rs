use buzz::error::BuzzError;
use buzz::hcomb::{FlightServiceImpl, HCombService, QueryOutput};
use buzz::models::{Fail, RecordBatch};
use buzz::schema::Schema;

fn batch(rows: usize) -> RecordBatch {
    RecordBatch { schema: Schema::empty(), num_rows: rows, payload: vec![7; rows] }
}

fn output_of(service: &HCombService, qid: &str) -> QueryOutput {
    for e in &service.queries {
        if e.query_id == qid {
            return match &e.output {
                QueryOutput::Open => QueryOutput::Open,
                QueryOutput::Done => QueryOutput::Done,
                QueryOutput::Failed(m) => QueryOutput::Failed(m.clone()),
            };
        }
    }
    panic!("no entry for the query");
}

#[test]
fn test_completion_needs_every_upload() {
    let mut service = HCombService::new();
    service.execute_query("q1".to_owned(), 2, Schema::empty()).unwrap();
    assert!(matches!(output_of(&service, "q1"), QueryOutput::Open));

    service.add_results(&"q1".to_owned(), vec![batch(5)]).unwrap();
    assert!(matches!(output_of(&service, "q1"), QueryOutput::Open));

    service.add_results(&"q1".to_owned(), vec![batch(3), batch(2)]).unwrap();
    assert!(matches!(output_of(&service, "q1"), QueryOutput::Done));

    // the channel holds every delivered batch, in arrival order
    let entry = service.queries.iter().find(|e| e.query_id == "q1").unwrap();
    assert_eq!(entry.batches.len(), 3);
    assert_eq!(entry.batches.iter().map(|b| b.num_rows).sum::<usize>(), 10);

    // an upload beyond the expected count is an internal error
    match service.add_results(&"q1".to_owned(), vec![batch(1)]) {
        Err(BuzzError::Internal(_)) => {}
        _ => panic!("excess uploads must be refused"),
    }
}

#[test]
fn test_duplicate_execute_refused() {
    let mut service = HCombService::new();
    service.execute_query("q1".to_owned(), 1, Schema::empty()).unwrap();
    match service.execute_query("q1".to_owned(), 1, Schema::empty()) {
        Err(BuzzError::Internal(_)) => {}
        _ => panic!("a second execution of the same query id must be refused"),
    }
}

#[test]
fn test_fail_poisons_and_is_idempotent() {
    let mut service = HCombService::new();
    service.execute_query("q1".to_owned(), 2, Schema::empty()).unwrap();
    service.add_results(&"q1".to_owned(), vec![batch(1)]).unwrap();

    service.fail(&"q1".to_owned(), BuzzError::RemoteFail("disk on fire".to_owned()));
    match output_of(&service, "q1") {
        QueryOutput::Failed(m) => assert_eq!(m, "disk on fire"),
        _ => panic!("a FAIL must poison the stream"),
    }

    // a second FAIL, even with another reason, changes nothing visible
    service.fail(&"q1".to_owned(), BuzzError::RemoteFail("other reason".to_owned()));
    match output_of(&service, "q1") {
        QueryOutput::Failed(m) => assert_eq!(m, "disk on fire"),
        _ => panic!("the first failure must stand"),
    }

    // uploads into the poisoned channel err
    match service.add_results(&"q1".to_owned(), vec![batch(1)]) {
        Err(BuzzError::Execution(_)) => {}
        _ => panic!("the channel is poisoned"),
    }
}

#[test]
fn test_fail_after_done_is_noop() {
    let mut service = HCombService::new();
    service.execute_query("q1".to_owned(), 1, Schema::empty()).unwrap();
    service.add_results(&"q1".to_owned(), vec![batch(4)]).unwrap();
    assert!(matches!(output_of(&service, "q1"), QueryOutput::Done));
    service.fail(&"q1".to_owned(), BuzzError::RemoteFail("too late".to_owned()));
    assert!(matches!(output_of(&service, "q1"), QueryOutput::Done));
}

#[test]
fn test_fail_unknown_query_is_noop() {
    let mut service = HCombService::new();
    service.fail(&"ghostly".to_owned(), BuzzError::RemoteFail("nobody home".to_owned()));
    assert_eq!(service.queries.len(), 0);
}

#[test]
fn test_do_action_dispatch() {
    let mut flight = FlightServiceImpl::new(HCombService::new());
    flight
        .hcomb_service
        .execute_query("q9".to_owned(), 1, Schema::empty())
        .unwrap();

    // a FAIL action poisons the query and no batch is ever delivered
    flight
        .do_action(
            &"Fail".to_owned(),
            Some(Fail { query_id: "q9".to_owned(), reason: "scanner exploded".to_owned() }),
        )
        .unwrap();
    let entry = flight.hcomb_service.queries.iter().find(|e| e.query_id == "q9").unwrap();
    assert_eq!(entry.batches.len(), 0);
    match &entry.output {
        QueryOutput::Failed(m) => assert_eq!(m, "scanner exploded"),
        _ => panic!("the FAIL action must poison the stream"),
    }

    // a health check succeeds and changes nothing
    assert!(flight.do_action(&"HealthCheck".to_owned(), None).is_ok());

    // anything else is not implemented
    match flight.do_action(&"Vanish".to_owned(), None) {
        Err(BuzzError::NotImplemented(_)) => {}
        _ => panic!("unknown actions must not be implemented"),
    }
}

#[test]
fn test_do_get_and_do_put() {
    let mut flight = FlightServiceImpl::new(HCombService::new());
    let node = buzz::hcomb::HCombScanNode {
        query_id: "q5".to_owned(),
        nb_scanners: 1,
        schema: Schema::empty(),
        sql: "SELECT * FROM mapper".to_owned(),
    };
    flight.do_get(node).unwrap();
    flight.do_put(&"q5".to_owned(), vec![batch(2), batch(3)]).unwrap();
    let entry = flight.hcomb_service.queries.iter().find(|e| e.query_id == "q5").unwrap();
    assert!(matches!(entry.output, QueryOutput::Done));
    assert_eq!(entry.batches.iter().map(|b| b.num_rows).sum::<usize>(), 5);

    // an upload for a query nobody registered errs
    assert!(flight.do_put(&"q404".to_owned(), vec![batch(1)]).is_err());
}

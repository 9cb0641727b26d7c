use buzz::models::SizedFile;
use buzz::plan::{CatalogTable, LogicalPlan, ScanTable, TableDesc};
use buzz::planner::{BuzzStep, BuzzStepType, QueryPlanner};
use buzz::schema::Schema;

fn mock_catalog(nb_split: usize) -> CatalogTable {
    let tables = (0..nb_split)
        .map(|i| ScanTable {
            files: vec![SizedFile { key: format!("gift_{}", i), length: 999999999 }],
            schema: Schema::empty(),
            cache_bound: false,
        })
        .collect::<Vec<_>>();
    CatalogTable { tables, schema: Schema::empty() }
}

fn named_scan(name: &str) -> LogicalPlan {
    LogicalPlan::TableScan { source: TableDesc::Named(name.to_owned()) }
}

fn two_steps() -> Vec<BuzzStep> {
    vec![
        BuzzStep {
            sql: "SELECT * FROM test".to_owned(),
            plan: named_scan("test"),
            name: "mapper".to_owned(),
            step_type: BuzzStepType::HBee,
        },
        BuzzStep {
            sql: "SELECT * FROM mapper".to_owned(),
            plan: named_scan("mapper"),
            name: "reducer".to_owned(),
            step_type: BuzzStepType::HComb,
        },
    ]
}

#[test]
fn test_simple_query() {
    let mut planner = QueryPlanner::new();
    let nb_split = 5;
    planner.add_catalog("test", mock_catalog(nb_split));

    let steps = two_steps();

    let plan_res = planner.plan("mock_query_id".to_owned(), steps, 1);
    assert!(plan_res.is_ok(), "The planner failed on a simple query");
    let plan = plan_res.unwrap();
    assert_eq!(plan.zones.len(), 1);
    assert_eq!(plan.zones[0].hbee.len(), 5);
}

#[test]
fn test_query_unknown_table() {
    let mut planner = QueryPlanner::new();
    let steps = two_steps();

    let plan_res = planner.plan("mock_query_id".to_owned(), steps, 1);
    assert!(
        plan_res.is_err(),
        "The planner should have failed as the 'test' table is not defined"
    );
    match plan_res {
        Err(buzz::error::BuzzError::Plan(_)) => {}
        _ => panic!("an unknown table must be a plan error"),
    }
}

#[test]
fn test_round_robin_distribution() {
    // seven files over three combiners: zone sizes 3, 2, 2 — even to one.
    let mut planner = QueryPlanner::new();
    planner.add_catalog("test", mock_catalog(7));
    let plan = planner.plan("q".to_owned(), two_steps(), 3).unwrap();
    assert_eq!(plan.zones.len(), 3);
    let sizes: Vec<usize> = plan.zones.iter().map(|z| z.hbee.len()).collect();
    assert_eq!(sizes, vec![3, 2, 2]);
    assert_eq!(sizes.iter().sum::<usize>(), 7);
}

#[test]
fn test_more_combiners_than_files() {
    let mut planner = QueryPlanner::new();
    planner.add_catalog("test", mock_catalog(2));
    let plan = planner.plan("q".to_owned(), two_steps(), 8).unwrap();
    assert_eq!(plan.zones.len(), 2);
    assert_eq!(plan.zones[0].hbee.len(), 1);
    assert_eq!(plan.zones[1].hbee.len(), 1);
}

#[test]
fn test_wrong_step_shape_not_implemented() {
    let mut planner = QueryPlanner::new();
    planner.add_catalog("test", mock_catalog(1));
    let one_step = vec![BuzzStep {
        sql: "SELECT * FROM test".to_owned(),
        plan: named_scan("test"),
        name: "mapper".to_owned(),
        step_type: BuzzStepType::HBee,
    }];
    match planner.plan("q".to_owned(), one_step, 1) {
        Err(buzz::error::BuzzError::NotImplemented(_)) => {}
        _ => panic!("a single-step query must not be implemented"),
    }
}

#[test]
fn test_multi_input_plan_rejected() {
    let mut planner = QueryPlanner::new();
    planner.add_catalog("test", mock_catalog(2));
    let mut steps = two_steps();
    steps[0].plan = LogicalPlan::Binary {
        left: Box::new(named_scan("test")),
        right: Box::new(named_scan("test")),
    };
    match planner.plan("q".to_owned(), steps, 1) {
        Err(buzz::error::BuzzError::NotImplemented(_)) => {}
        _ => panic!("a two-input plan must not be implemented"),
    }
}

#[test]
fn test_merge_plan_sees_intermediate_table() {
    // after planning, the merge plan's leaf is the intermediate result
    // table registered under the scan step's name, expecting one partition
    // per scan plan.
    let mut planner = QueryPlanner::new();
    planner.add_catalog("test", mock_catalog(4));
    let plan = planner.plan("the_query".to_owned(), two_steps(), 2).unwrap();
    assert_eq!(plan.zones.len(), 2);
    for zone in &plan.zones {
        match &zone.hcomb {
            LogicalPlan::TableScan { source: TableDesc::Intermediate(rt) } => {
                assert_eq!(rt.query_id, "the_query");
                assert_eq!(rt.nb_expected, 4);
            }
            _ => panic!("the merge plan must scan the intermediate table"),
        }
    }
}

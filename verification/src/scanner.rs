//! The scanner: one-shot execution of one zone's scan plan. The verified
//! core binds the scanner's range cache into the plan's single scan leaf,
//! merges a multi-partition physical plan into one partition, collects the
//! batches, and decides what goes back to the combiner: an upload on
//! success, a FAIL action carrying the reason on any failure.

use vstd::prelude::*;

use crate::error::BuzzError;
use crate::models::{RecordBatch, RecordBatchV};
use crate::plan::{clone_plan, LogicalPlan, PlanV, ScanTable, ScanTableV, TableDesc, TableDescV};
use crate::range_cache::RangeCache;
use crate::schema::Schema;

verus! {

/// How many scan-table leaves a plan holds.
pub open spec fn scan_leaf_count(p: PlanV) -> nat
    decreases p,
{
    match p {
        PlanV::TableScan { source } => match source {
            TableDescV::Scan(_) => 1nat,
            _ => 0nat,
        },
        PlanV::Unary { input, .. } => scan_leaf_count(*input),
        PlanV::Binary { left, right } => scan_leaf_count(*left) + scan_leaf_count(*right),
    }
}

/// The plan with every scan-table leaf's cache slot bound.
pub open spec fn bind_spec(p: PlanV) -> PlanV
    decreases p,
{
    match p {
        PlanV::TableScan { source } => match source {
            TableDescV::Scan(t) => PlanV::TableScan {
                source: TableDescV::Scan(
                    ScanTableV { files: t.files, schema: t.schema, cache_bound: true },
                ),
            },
            _ => p,
        },
        PlanV::Unary { exprs, schema, input } => PlanV::Unary {
            exprs,
            schema,
            input: Box::new(bind_spec(*input)),
        },
        PlanV::Binary { left, right } => PlanV::Binary {
            left: Box::new(bind_spec(*left)),
            right: Box::new(bind_spec(*right)),
        },
    }
}

/// Counts the plan's scan-table leaves, saturating at two: the scanner only
/// needs to know none / exactly one / more than one.
fn count_scan_leaves(plan: &LogicalPlan) -> (r: u8)
    ensures
        r == 0 <==> scan_leaf_count(plan@) == 0,
        r == 1 <==> scan_leaf_count(plan@) == 1,
        r == 2 <==> scan_leaf_count(plan@) >= 2,
    decreases *plan,
{
    match plan {
        LogicalPlan::TableScan { source } => match source {
            TableDesc::Scan(_) => 1,
            _ => 0,
        },
        LogicalPlan::Unary { input, .. } => count_scan_leaves(input),
        LogicalPlan::Binary { left, right } => {
            let l = count_scan_leaves(left);
            let r = count_scan_leaves(right);
            if l + r >= 2 {
                2
            } else {
                l + r
            }
        },
    }
}

/// Rebuilds the plan with every scan-table leaf's cache slot bound.
fn mark_leaves(plan: &LogicalPlan) -> (r: LogicalPlan)
    ensures
        r@ == bind_spec(plan@),
    decreases *plan,
{
    match plan {
        LogicalPlan::TableScan { source } => match source {
            TableDesc::Scan(t) => LogicalPlan::TableScan {
                source: TableDesc::Scan(
                    ScanTable {
                        files: t.clone().files,
                        schema: t.schema.clone(),
                        cache_bound: true,
                    },
                ),
            },
            _ => clone_plan(plan),
        },
        LogicalPlan::Unary { exprs, schema, input } => LogicalPlan::Unary {
            exprs: crate::planner::clone_exprs(exprs),
            schema: schema.clone(),
            input: Box::new(mark_leaves(input)),
        },
        LogicalPlan::Binary { left, right } => LogicalPlan::Binary {
            left: Box::new(mark_leaves(left)),
            right: Box::new(mark_leaves(right)),
        },
    }
}

/// Locates the plan's single scan-table leaf and binds the scanner's range
/// cache into it. A plan with no or several scan leaves violates the
/// scanner's invariant and is an internal error.
pub fn bind_cache(plan: &LogicalPlan) -> (r: Result<LogicalPlan, BuzzError>)
    ensures
        r matches Ok(_) <==> scan_leaf_count(plan@) == 1,
        r matches Ok(q) ==> q@ == bind_spec(plan@),
        r matches Err(e) ==> e matches BuzzError::Internal(_),
{
    if count_scan_leaves(plan) == 1 {
        Ok(mark_leaves(plan))
    } else {
        Err(BuzzError::Internal("the plan must hold exactly one scan-table leaf".to_owned()))
    }
}

/// A physical plan as the scanner sees it: per-partition batch lists.
pub struct PhysicalPlan {
    pub schema: Schema,
    pub partitions: Vec<Vec<RecordBatch>>,
}

/// The batches of all partitions, in partition order.
pub open spec fn flatten_views(parts: Seq<Vec<RecordBatch>>) -> Seq<RecordBatchV>
    decreases parts.len(),
{
    if parts.len() == 0 {
        Seq::empty()
    } else {
        flatten_views(parts.drop_last()) + parts.last()@.map_values(|b: RecordBatch| b@)
    }
}

/// Collects every batch of every partition, in partition order.
pub fn collect(plan: &PhysicalPlan) -> (r: Vec<RecordBatch>)
    ensures
        r@.map_values(|b: RecordBatch| b@) == flatten_views(plan.partitions@),
{
    let mut out: Vec<RecordBatch> = Vec::new();
    let mut i: usize = 0;
    proof {
        assert(plan.partitions@.take(0) =~= Seq::<Vec<RecordBatch>>::empty());
    }
    while i < plan.partitions.len()
        invariant
            0 <= i <= plan.partitions.len(),
            out@.map_values(|b: RecordBatch| b@) == flatten_views(plan.partitions@.take(i as int)),
        decreases plan.partitions.len() - i,
    {
        let part = &plan.partitions[i];
        let mut j: usize = 0;
        while j < part.len()
            invariant
                0 <= j <= part.len(),
                part == &plan.partitions[i as int],
                0 <= i < plan.partitions.len(),
                out@.map_values(|b: RecordBatch| b@) == flatten_views(
                    plan.partitions@.take(i as int),
                ) + part@.map_values(|b: RecordBatch| b@).take(j as int),
            decreases part.len() - j,
        {
            let cloned = part[j].clone();
            let ghost pre = out@;
            proof {
                assert(cloned@ == part@[j as int]@);
            }
            out.push(cloned);
            proof {
                let ghost fv = flatten_views(plan.partitions@.take(i as int));
                let ghost mapped = part@.map_values(|b: RecordBatch| b@);
                assert(pre.map_values(|b: RecordBatch| b@).len() == pre.len());
                assert(pre.len() == fv.len() + j);
                assert forall|k: int|
                    0 <= k < out@.len() implies (#[trigger] out@[k])@ == (fv + mapped.take(j + 1))[k]
                    by {
                    if k < pre.len() {
                        assert(out@[k] == pre[k]);
                        assert(pre.map_values(|b: RecordBatch| b@)[k] == pre[k]@);
                        assert((fv + mapped.take(j as int))[k] == (fv + mapped.take(j + 1))[k]);
                    } else {
                        assert(out@[k] == cloned);
                        assert((fv + mapped.take(j + 1))[k] == mapped[j as int]);
                        assert(mapped[j as int] == part@[j as int]@);
                    }
                }
                assert forall|k: int|
                    0 <= k < out@.len() implies #[trigger] (fv + mapped.take(j + 1))[k] == out@[k]@
                    by {}
                assert(out@.map_values(|b: RecordBatch| b@) =~= fv + mapped.take(j + 1));
            }
            j += 1;
        }
        proof {
            assert(plan.partitions@.take(i + 1).drop_last() =~= plan.partitions@.take(i as int));
            assert(plan.partitions@.take(i + 1).last() == plan.partitions@[i as int]);
            assert(part@.map_values(|b: RecordBatch| b@).take(part@.len() as int) =~= part@
                .map_values(|b: RecordBatch| b@));
            assert(out@.map_values(|b: RecordBatch| b@) =~= flatten_views(
                plan.partitions@.take(i + 1),
            ));
        }
        i += 1;
    }
    proof {
        assert(plan.partitions@.take(plan.partitions@.len() as int) =~= plan.partitions@);
    }
    out
}

/// Merges a physical plan into exactly one partition. A plan with one
/// partition stands; one with several is wrapped so all its batches form a
/// single partition in partition order; one with none violates the
/// scanner's invariant.
pub fn merge_partitions(plan: PhysicalPlan) -> (r: Result<PhysicalPlan, BuzzError>)
    ensures
        r matches Ok(_) <==> plan.partitions@.len() >= 1,
        r matches Ok(m) ==> m.partitions@.len() == 1 && m.partitions@[0]@.map_values(
            |b: RecordBatch| b@,
        ) == flatten_views(plan.partitions@) && m.schema == plan.schema,
        r matches Err(e) ==> e matches BuzzError::Internal(_),
{
    if plan.partitions.len() == 0 {
        return Err(BuzzError::Internal("should have at least one partition".to_owned()));
    }
    let merged = collect(&plan);
    let mut partitions: Vec<Vec<RecordBatch>> = Vec::new();
    partitions.push(merged);
    Ok(PhysicalPlan { schema: plan.schema, partitions })
}

/// What a scanner sends its combiner when its work ends.
pub enum ScanOutcome {
    /// Success: the collected batches go up as one streamed upload.
    Upload { query_id: String, address: String, batches: Vec<RecordBatch> },
    /// Any failure: a FAIL action carrying the reason, instead of data.
    FailAction { query_id: String, address: String, reason: String },
}

/// The scanner's execution runtime: its per-query range cache.
pub struct HBeeService {
    pub range_cache: RangeCache,
}

impl HBeeService {
    /// A fresh scanner runtime with an empty cache.
    pub fn new() -> (r: HBeeService)
        ensures
            r.range_cache.wf(),
            r.range_cache.issued@.len() == 0,
            r.range_cache.hinted@.len() == 0,
            r.range_cache.stats == (crate::range_cache::CacheStats {
                download_count: 0,
                downloaded_bytes: 0,
                processed_bytes: 0,
                waiting_download_ms: 0,
            }),
    {
        HBeeService { range_cache: RangeCache::new() }
    }

    /// Decides the scanner's one outbound message: the host lowers and runs
    /// the plan and hands the outcome here. A failed run — or a physical
    /// plan with no partition at all — becomes a FAIL action carrying the
    /// reason; a successful run becomes an upload of every batch of every
    /// partition, in partition order, as one sequence.
    pub fn execute_query(
        &self,
        query_id: String,
        address: String,
        physical: Result<PhysicalPlan, BuzzError>,
    ) -> (r: ScanOutcome)
        ensures
            match physical {
                Err(e) => r matches ScanOutcome::FailAction { query_id: q, address: a, reason }
                    && q@ == query_id@ && a@ == address@ && reason@ == e.message_spec(),
                Ok(pp) => if pp.partitions@.len() == 0 {
                    r matches ScanOutcome::FailAction { query_id: q, address: a, .. } && q@
                        == query_id@ && a@ == address@
                } else {
                    r matches ScanOutcome::Upload { query_id: q, address: a, batches } && q@
                        == query_id@ && a@ == address@ && batches@.map_values(|b: RecordBatch| b@)
                        == flatten_views(pp.partitions@)
                },
            },
    {
        match physical {
            Err(e) => ScanOutcome::FailAction { query_id, address, reason: e.message() },
            Ok(pp) => match merge_partitions(pp) {
                Err(e) => ScanOutcome::FailAction { query_id, address, reason: e.message() },
                Ok(merged) => {
                    let batches = collect(&merged);
                    proof {
                        assert(merged.partitions@.drop_last() =~= Seq::<Vec<RecordBatch>>::empty());
                        assert(flatten_views(Seq::<Vec<RecordBatch>>::empty())
                            == Seq::<RecordBatchV>::empty());
                        assert(flatten_views(merged.partitions@) =~= merged.partitions@[0]@
                            .map_values(|b: RecordBatch| b@));
                    }
                    ScanOutcome::Upload { query_id, address, batches }
                },
            },
        }
    }
}

} // verus!

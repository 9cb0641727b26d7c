//! The planner: resolves table names against a registry, splits the scan
//! stage along its single table-scan leaf into per-file plans, and
//! distributes them round-robin over `min(nb_hcomb, k)` zones, each zone
//! carrying its own copy of the merge plan.

use vstd::prelude::*;

use crate::error::BuzzError;
use crate::plan::{
    clone_plan, has_multi_input, leaf_source, plan_schema, split_plans, CatalogTable, Expr,
    LogicalPlan, PlanV, ResultTable, ResultTableV, ScanTable, TableDesc, TableDescV,
};
use crate::schema::{Schema, SchemaV};

verus! {

/// The tier a query step runs on: the scanning fan-out tier or the merging
/// fan-in tier.
#[derive(Clone, Copy, PartialEq, Eq, Structural, Debug)]
pub enum BuzzStepType {
    HBee,
    HComb,
}

/// One stage of a user query: its SQL text, the plan the host's SQL front
/// parsed from that text, the name under which the stage's output is known
/// to later stages, and the tier it runs on.
pub struct BuzzStep {
    pub sql: String,
    pub plan: LogicalPlan,
    pub name: String,
    pub step_type: BuzzStepType,
}

/// Mathematical image of a `BuzzStep`.
pub struct BuzzStepV {
    pub sql: Seq<char>,
    pub plan: PlanV,
    pub name: Seq<char>,
    pub step_type: BuzzStepType,
}

impl View for BuzzStep {
    type V = BuzzStepV;

    open spec fn view(&self) -> BuzzStepV {
        BuzzStepV {
            sql: self.sql@,
            plan: self.plan@,
            name: self.name@,
            step_type: self.step_type,
        }
    }
}

/// One zone: the scan plans handed to that zone's scanners and the merge
/// plan its combiner runs.
pub struct ZonePlan {
    pub hbee: Vec<LogicalPlan>,
    pub hcomb: LogicalPlan,
}

/// Mathematical image of a `ZonePlan`.
pub struct ZonePlanV {
    pub hbee: Seq<PlanV>,
    pub hcomb: PlanV,
}

impl View for ZonePlan {
    type V = ZonePlanV;

    open spec fn view(&self) -> ZonePlanV {
        ZonePlanV { hbee: self.hbee@.map_values(|p: LogicalPlan| p@), hcomb: self.hcomb@ }
    }
}

/// The plans to be distributed among the scanners and combiners: one
/// `ZonePlan` per active combiner.
pub struct DistributedPlan {
    pub zones: Vec<ZonePlan>,
}

/// Mathematical image of a `DistributedPlan`.
pub struct DistributedPlanV {
    pub zones: Seq<ZonePlanV>,
}

impl View for DistributedPlan {
    type V = DistributedPlanV;

    open spec fn view(&self) -> DistributedPlanV {
        DistributedPlanV { zones: self.zones@.map_values(|z: ZonePlan| z@) }
    }
}

/// The planner's table registry: name-to-source bindings in registration
/// order, where the latest binding of a name wins.
pub struct QueryPlanner {
    pub registry: Vec<(String, TableDesc)>,
}

impl View for QueryPlanner {
    type V = Seq<(Seq<char>, TableDescV)>;

    open spec fn view(&self) -> Seq<(Seq<char>, TableDescV)> {
        self.registry@.map_values(|e: (String, TableDesc)| (e.0@, e.1@))
    }
}

/// The binding of `name` in the registry; the latest wins.
pub open spec fn lookup_spec(reg: Seq<(Seq<char>, TableDescV)>, name: Seq<char>) -> Option<
    TableDescV,
>
    decreases reg.len(),
{
    if reg.len() == 0 {
        None
    } else if reg.last().0 == name {
        Some(reg.last().1)
    } else {
        lookup_spec(reg.drop_last(), name)
    }
}

/// The plan with every named leaf replaced by its registry binding; `None`
/// when some name is not bound.
pub open spec fn resolve_spec(p: PlanV, reg: Seq<(Seq<char>, TableDescV)>) -> Option<PlanV>
    decreases p,
{
    match p {
        PlanV::TableScan { source } => match source {
            TableDescV::Named(n) => match lookup_spec(reg, n) {
                Some(d) => Some(PlanV::TableScan { source: d }),
                None => None,
            },
            _ => Some(p),
        },
        PlanV::Unary { exprs, schema, input } => match resolve_spec(*input, reg) {
            Some(q) => Some(PlanV::Unary { exprs, schema, input: Box::new(q) }),
            None => None,
        },
        PlanV::Binary { left, right } => match resolve_spec(*left, reg) {
            Some(l) => match resolve_spec(*right, reg) {
                Some(rr) => Some(PlanV::Binary { left: Box::new(l), right: Box::new(rr) }),
                None => None,
            },
            None => None,
        },
    }
}

/// A query is accepted only as exactly one scanning step followed by one
/// merging step.
pub open spec fn steps_well_formed(steps: Seq<BuzzStepV>) -> bool {
    &&& steps.len() == 2
    &&& steps[0].step_type == BuzzStepType::HBee
    &&& steps[1].step_type == BuzzStepType::HComb
}

/// How many of the `k` scan plans land in zone `j` under round-robin
/// distribution over `z` zones: plan `i` goes to zone `i % z`.
pub open spec fn zone_len(k: int, z: int, j: int) -> int {
    k / z + if j < k % z {
        1int
    } else {
        0int
    }
}

/// The zones the planner builds: `z` zones, each with the merge plan and
/// with scan plan `i` of `splits` standing at position `i / z` of zone
/// `i % z`.
pub open spec fn zones_spec(splits: Seq<PlanV>, mp: PlanV, z: int) -> Seq<ZonePlanV> {
    Seq::new(
        z as nat,
        |j: int|
            ZonePlanV {
                hbee: Seq::new(
                    zone_len(splits.len() as int, z, j) as nat,
                    |m: int| splits[m * z + j],
                ),
                hcomb: mp,
            },
    )
}

/// The registry entry the planner registers for the scan stage's output: the
/// combiner-side intermediate table, expecting one partition per scan plan.
pub open spec fn intermediate_entry(
    query_id: Seq<char>,
    name: Seq<char>,
    k: nat,
    schema: SchemaV,
) -> (Seq<char>, TableDescV) {
    (
        name,
        TableDescV::Intermediate(
            ResultTableV { query_id: query_id, nb_expected: k as usize, schema: schema },
        ),
    )
}

impl QueryPlanner {
    /// A planner with an empty table registry.
    pub fn new() -> (r: Self)
        ensures
            r@ == Seq::<(Seq<char>, TableDescV)>::empty(),
    {
        let r = QueryPlanner { registry: Vec::new() };
        proof {
            assert(r@ =~= Seq::<(Seq<char>, TableDescV)>::empty());
        }
        r
    }

    /// Registers a catalog under `name`. A later registration of the same
    /// name shadows an earlier one.
    pub fn add_catalog(&mut self, name: &str, table: CatalogTable)
        ensures
            final(self)@ == old(self)@.push((name@, TableDescV::Catalog(table@))),
    {
        let ghost before = self@;
        let owned: String = name.to_owned();
        self.registry.push((owned, TableDesc::Catalog(table)));
        proof {
            assert(self@ =~= before.push((name@, TableDescV::Catalog(table@))));
        }
    }

    /// Looks `name` up in the registry; the latest binding wins.
    fn lookup(&self, name: &String) -> (r: Option<TableDesc>)
        ensures
            match r {
                Some(d) => lookup_spec(self@, name@) == Some(d@),
                None => lookup_spec(self@, name@) is None,
            },
    {
        let mut i: usize = self.registry.len();
        proof {
            assert(self@.take(i as int) =~= self@);
        }
        while i > 0
            invariant
                0 <= i <= self.registry.len(),
                lookup_spec(self@, name@) == lookup_spec(self@.take(i as int), name@),
            decreases i,
        {
            i -= 1;
            let entry = &self.registry[i];
            if entry.0 == *name {
                proof {
                    assert(self@.take(i + 1).last() == (entry.0@, entry.1@));
                }
                return Some(entry.1.clone());
            }
            proof {
                assert(self@.take(i + 1).drop_last() =~= self@.take(i as int));
            }
        }
        proof {
            assert(self@.take(0) =~= Seq::<(Seq<char>, TableDescV)>::empty());
        }
        None
    }

    /// Replaces every named leaf of `plan` by its registry binding; errs
    /// with a `Plan` error when a name is not bound.
    pub fn resolve(&self, plan: &LogicalPlan) -> (r: Result<LogicalPlan, BuzzError>)
        ensures
            match r {
                Ok(q) => resolve_spec(plan@, self@) == Some(q@),
                Err(e) => resolve_spec(plan@, self@) is None && e matches BuzzError::Plan(_),
            },
        decreases *plan,
    {
        match plan {
            LogicalPlan::TableScan { source } => match source {
                TableDesc::Named(n) => match self.lookup(n) {
                    Some(d) => Ok(LogicalPlan::TableScan { source: d }),
                    None => Err(BuzzError::Plan("table not found in the registry".to_owned())),
                },
                _ => Ok(clone_plan(plan)),
            },
            LogicalPlan::Unary { exprs, schema, input } => {
                let sub = self.resolve(input)?;
                Ok(
                    LogicalPlan::Unary {
                        exprs: clone_exprs(exprs),
                        schema: schema.clone(),
                        input: Box::new(sub),
                    },
                )
            },
            LogicalPlan::Binary { left, right } => {
                let l = self.resolve(left)?;
                let rr = self.resolve(right)?;
                Ok(LogicalPlan::Binary { left: Box::new(l), right: Box::new(rr) })
            },
        }
    }
}

/// What `plan` returns and how it changes the registry, stage by stage:
/// a step list other than [scan, merge] is not implemented; an unresolved
/// scan-stage name is a plan error; a scan stage with a node of more than
/// one input is not implemented; otherwise the intermediate result table is
/// registered under the scan step's name, the merge stage is resolved
/// against it (an unresolved name again a plan error), and the split plans
/// are distributed round-robin over `min(nb_hcomb, k)` zones.
pub open spec fn plan_ensures(
    reg0: Seq<(Seq<char>, TableDescV)>,
    reg1: Seq<(Seq<char>, TableDescV)>,
    qid: Seq<char>,
    steps: Seq<BuzzStepV>,
    nb: int,
    r: Result<DistributedPlan, BuzzError>,
) -> bool {
    if !steps_well_formed(steps) {
        reg1 == reg0 && r matches Err(BuzzError::NotImplemented(_))
    } else {
        match resolve_spec(steps[0].plan, reg0) {
            None => reg1 == reg0 && r matches Err(BuzzError::Plan(_)),
            Some(rp) => if has_multi_input(rp) {
                reg1 == reg0 && r matches Err(BuzzError::NotImplemented(_))
            } else {
                let splits = split_plans(rp);
                let k = splits.len();
                let entry = intermediate_entry(qid, steps[0].name, k, plan_schema(rp));
                let regx = reg0.push(entry);
                reg1 == regx && match resolve_spec(steps[1].plan, regx) {
                    None => r matches Err(BuzzError::Plan(_)),
                    Some(mp) => {
                        let z = if nb <= k {
                            nb
                        } else {
                            k as int
                        };
                        r matches Ok(dp) && dp@.zones == zones_spec(splits, mp, z)
                    },
                }
            },
        }
    }
}

/// Every position a zone draws from lies inside the split list.
proof fn lemma_zone_index(k: int, z: int, j: int, m: int)
    requires
        0 < z,
        0 <= j < z,
        0 <= k,
        0 <= m < zone_len(k, z, j),
    ensures
        m * z + j < k,
{
    let q = k / z;
    let r = k % z;
    vstd::arithmetic::div_mod::lemma_fundamental_div_mod(k, z);
    vstd::arithmetic::div_mod::lemma_mod_bound(k, z);
    if j < r {
        assert(m * z + j < k) by (nonlinear_arith)
            requires
                m <= q,
                j < r,
                k == q * z + r,
                0 < z,
                0 <= m,
        ;
    } else {
        assert(m * z + j < k) by (nonlinear_arith)
            requires
                m <= q - 1,
                j < z,
                k == q * z + r,
                0 <= r,
                0 < z,
                0 <= m,
                0 <= j,
        ;
    }
}

impl QueryPlanner {
    /// Plans one user query: resolves the scan stage, splits it into one
    /// plan per catalog file group, registers the intermediate result table
    /// under the scan step's name, resolves the merge stage against it, and
    /// distributes the scan plans round-robin over `min(nb_hcomb, k)` zones,
    /// each zone carrying its own copy of the merge plan.
    pub fn plan(
        &mut self,
        query_id: String,
        query_steps: Vec<BuzzStep>,
        nb_hcomb: i16,
    ) -> (r: Result<DistributedPlan, BuzzError>)
        requires
            nb_hcomb >= 1,
        ensures
            plan_ensures(
                old(self)@,
                final(self)@,
                query_id@,
                query_steps@.map_values(|s: BuzzStep| s@),
                nb_hcomb as int,
                r,
            ),
    {
        let ghost reg0 = self@;
        let ghost steps_v = query_steps@.map_values(|s: BuzzStep| s@);
        if query_steps.len() != 2 {
            return Err(
                BuzzError::NotImplemented(
                    "a query must be exactly one scan step followed by one merge step".to_owned(),
                ),
            );
        }
        if !(query_steps[0].step_type == BuzzStepType::HBee && query_steps[1].step_type
            == BuzzStepType::HComb) {
            return Err(
                BuzzError::NotImplemented(
                    "a query must be exactly one scan step followed by one merge step".to_owned(),
                ),
            );
        }
        proof {
            assert(steps_well_formed(steps_v));
        }
        let rp = match self.resolve(&query_steps[0].plan) {
            Ok(p) => p,
            Err(e) => {
                return Err(e);
            },
        };
        let splits = match split(&rp) {
            Ok(v) => v,
            Err(e) => {
                return Err(e);
            },
        };
        let ghost splits_v = splits@.map_values(|p: LogicalPlan| p@);
        let k = splits.len();
        let schema = plan_output_schema(&rp);
        let rt = ResultTable { query_id, nb_expected: k, schema };
        self.registry.push((query_steps[0].name.clone(), TableDesc::Intermediate(rt)));
        proof {
            assert(self@ =~= reg0.push(
                intermediate_entry(
                    query_id@,
                    steps_v[0].name,
                    splits_v.len() as nat,
                    plan_schema(rp@),
                ),
            ));
        }
        let mp = match self.resolve(&query_steps[1].plan) {
            Ok(p) => p,
            Err(e) => {
                return Err(e);
            },
        };
        let z: usize = if (nb_hcomb as usize) <= k {
            nb_hcomb as usize
        } else {
            k
        };
        let mut zones: Vec<ZonePlan> = Vec::new();
        let mut j: usize = 0;
        while j < z
            invariant
                0 <= j <= z,
                z >= 1 ==> z <= k,
                z <= k,
                k == splits@.len(),
                splits_v == splits@.map_values(|p: LogicalPlan| p@),
                k == splits_v.len(),
                zones@.len() == j,
                forall|t: int|
                    0 <= t < j ==> zones@[t]@ == zones_spec(splits_v, mp@, z as int)[t],
            decreases z - j,
        {
            let q = k / z;
            let rem = k % z;
            proof {
                vstd::arithmetic::div_mod::lemma_fundamental_div_mod(k as int, z as int);
                vstd::arithmetic::div_mod::lemma_mod_bound(k as int, z as int);
                if j < rem {
                    assert(q + 1 <= usize::MAX) by (nonlinear_arith)
                        requires
                            q == k as int / z as int,
                            rem == k as int % z as int,
                            k as int == q * (z as int) + rem,
                            0 <= rem < z,
                            (j as int) < rem,
                            k <= usize::MAX,
                            z >= 1,
                    ;
                }
            }
            let cnt: usize = if j < rem {
                q + 1
            } else {
                q
            };
            proof {
                assert(cnt as int == zone_len(k as int, z as int, j as int));
            }
            let mut hbee: Vec<LogicalPlan> = Vec::new();
            let mut m: usize = 0;
            while m < cnt
                invariant
                    0 <= m <= cnt,
                    z >= 1,
                    j < z,
                    k == splits@.len(),
                    splits_v == splits@.map_values(|p: LogicalPlan| p@),
                    cnt as int == zone_len(k as int, z as int, j as int),
                    hbee@.len() == m,
                    forall|t: int|
                        0 <= t < m ==> hbee@[t]@ == splits_v[t * (z as int) + (j as int)],
                decreases cnt - m,
            {
                proof {
                    lemma_zone_index(k as int, z as int, j as int, m as int);
                }
                let idx: usize = m * z + j;
                hbee.push(clone_plan(&splits[idx]));
                m += 1;
            }
            zones.push(ZonePlan { hbee, hcomb: clone_plan(&mp) });
            proof {
                assert(zones@.last()@.hbee =~= zones_spec(splits_v, mp@, z as int)[j as int].hbee);
                assert(zones@.last()@ == zones_spec(splits_v, mp@, z as int)[j as int]);
            }
            j += 1;
        }
        let dp = DistributedPlan { zones };
        proof {
            assert(dp@.zones =~= zones_spec(splits_v, mp@, z as int));
        }
        Ok(dp)
    }
}

/// The total number of scan plans across a zone list.
pub open spec fn total_scan_plans(zones: Seq<ZonePlanV>) -> int
    decreases zones.len(),
{
    if zones.len() == 0 {
        0
    } else {
        total_scan_plans(zones.drop_last()) + zones.last().hbee.len()
    }
}

/// The total scan-plan count of the first `j` zones of a round-robin
/// distribution of `splits` over `z` zones.
proof fn lemma_total_prefix(splits: Seq<PlanV>, mp: PlanV, z: int, j: int)
    requires
        1 <= z <= splits.len(),
        0 <= j <= z,
    ensures
        total_scan_plans(zones_spec(splits, mp, z).take(j)) == (splits.len() as int / z) * j + (
        if j <= splits.len() as int % z {
            j
        } else {
            splits.len() as int % z
        }),
    decreases j,
{
    let k = splits.len() as int;
    let q = k / z;
    let r = k % z;
    vstd::arithmetic::div_mod::lemma_mod_bound(k, z);
    let zs = zones_spec(splits, mp, z);
    if j == 0 {
        assert(zs.take(0) =~= Seq::<ZonePlanV>::empty());
    } else {
        lemma_total_prefix(splits, mp, z, j - 1);
        assert(zs.take(j).drop_last() =~= zs.take(j - 1));
        assert(zs.take(j).last() == zs[j - 1]);
        assert(zs[j - 1].hbee.len() == zone_len(k, z, j - 1));
        assert(q * (j - 1) + q == q * j) by (nonlinear_arith);
    }
}

/// Law: distributing the `k` plans a catalog splits into over
/// `z = min(nb_hcomb, k)` zones keeps every plan — the zone totals sum to
/// `k` — and spreads them as evenly as possible: any two zones' scan-plan
/// counts differ by at most one.
pub proof fn lemma_zone_distribution(splits: Seq<PlanV>, mp: PlanV, z: int)
    requires
        1 <= z <= splits.len(),
    ensures
        zones_spec(splits, mp, z).len() == z,
        total_scan_plans(zones_spec(splits, mp, z)) == splits.len(),
        forall|j1: int, j2: int|
            0 <= j1 < z && 0 <= j2 < z ==> zones_spec(splits, mp, z)[j1].hbee.len() - zones_spec(
                splits,
                mp,
                z,
            )[j2].hbee.len() <= 1,
{
    let k = splits.len() as int;
    let q = k / z;
    let r = k % z;
    let zs = zones_spec(splits, mp, z);
    vstd::arithmetic::div_mod::lemma_fundamental_div_mod(k, z);
    vstd::arithmetic::div_mod::lemma_mod_bound(k, z);
    lemma_total_prefix(splits, mp, z, z);
    assert(zs.take(z) =~= zs);
    assert(q * z + r == k);
    assert(forall|j: int| 0 <= j < z ==> zs[j].hbee.len() == zone_len(k, z, j));
}

/// Clones an expression list.
pub fn clone_exprs(exprs: &Vec<Expr>) -> (r: Vec<Expr>)
    ensures
        r@.map_values(|e: Expr| e@) == exprs@.map_values(|e: Expr| e@),
{
    let mut es: Vec<Expr> = Vec::new();
    let mut i: usize = 0;
    while i < exprs.len()
        invariant
            0 <= i <= exprs.len(),
            es@.len() == i,
            forall|j: int| 0 <= j < i ==> es@[j]@ == exprs@[j]@,
        decreases exprs.len() - i,
    {
        es.push(exprs[i].clone());
        i += 1;
    }
    proof {
        assert(es@.map_values(|e: Expr| e@) =~= exprs@.map_values(|e: Expr| e@));
    }
    es
}

/// Computes the output schema of a plan.
pub fn plan_output_schema(plan: &LogicalPlan) -> (s: Schema)
    ensures
        s@ == plan_schema(plan@),
{
    match plan {
        LogicalPlan::TableScan { source } => match source {
            TableDesc::Named(_) => Schema::empty(),
            TableDesc::Catalog(c) => c.schema.clone(),
            TableDesc::Scan(t) => t.schema.clone(),
            TableDesc::Intermediate(r) => r.schema.clone(),
        },
        LogicalPlan::Unary { schema, .. } => schema.clone(),
        LogicalPlan::Binary { .. } => Schema::empty(),
    }
}

/// Splits a linear plan along its leaf: when the leaf is a catalog table,
/// one plan per file group, each ancestor rebuilt over the rewritten input;
/// otherwise the plan alone. A plan holding a node with more than one input
/// is rejected.
pub fn split(plan: &LogicalPlan) -> (r: Result<Vec<LogicalPlan>, BuzzError>)
    ensures
        match r {
            Ok(v) => !has_multi_input(plan@) && v@.map_values(|p: LogicalPlan| p@) == split_plans(
                plan@,
            ),
            Err(e) => has_multi_input(plan@) && e matches BuzzError::NotImplemented(_),
        },
    decreases *plan,
{
    match plan {
        LogicalPlan::Binary { .. } => Err(
            BuzzError::NotImplemented(
                "operations with more than one input are not supported".to_owned(),
            ),
        ),
        LogicalPlan::Unary { exprs, schema, input } => {
            let subs = split(input)?;
            let mut out: Vec<LogicalPlan> = Vec::new();
            let mut i: usize = 0;
            while i < subs.len()
                invariant
                    0 <= i <= subs.len(),
                    out@.len() == i,
                    forall|j: int|
                        0 <= j < i ==> out@[j]@ == (PlanV::Unary {
                            exprs: exprs@.map_values(|e: Expr| e@),
                            schema: schema@,
                            input: Box::new(subs@.map_values(|p: LogicalPlan| p@)[j]),
                        }),
                decreases subs.len() - i,
            {
                out.push(
                    LogicalPlan::Unary {
                        exprs: clone_exprs(exprs),
                        schema: schema.clone(),
                        input: Box::new(clone_plan(&subs[i])),
                    },
                );
                i += 1;
            }
            proof {
                lemma_split_unary(plan@, subs@.map_values(|p: LogicalPlan| p@));
                assert(out@.map_values(|p: LogicalPlan| p@) =~= split_plans(plan@));
            }
            Ok(out)
        },
        LogicalPlan::TableScan { source } => match source {
            TableDesc::Catalog(c) => {
                let tables = c.split();
                let mut out: Vec<LogicalPlan> = Vec::new();
                let mut i: usize = 0;
                while i < tables.len()
                    invariant
                        0 <= i <= tables.len(),
                        out@.len() == i,
                        forall|j: int|
                            0 <= j < i ==> out@[j]@ == (PlanV::TableScan {
                                source: TableDescV::Scan(
                                    tables@.map_values(|t: ScanTable| t@)[j],
                                ),
                            }),
                    decreases tables.len() - i,
                {
                    out.push(
                        LogicalPlan::TableScan { source: TableDesc::Scan(tables[i].clone()) },
                    );
                    i += 1;
                }
                proof {
                    assert(out@.map_values(|p: LogicalPlan| p@) =~= split_plans(plan@));
                }
                Ok(out)
            },
            _ => {
                let mut out: Vec<LogicalPlan> = Vec::new();
                out.push(clone_plan(plan));
                proof {
                    assert(out@.map_values(|p: LogicalPlan| p@) =~= split_plans(plan@));
                }
                Ok(out)
            },
        },
    }
}

/// Splitting below a one-input node is splitting its input, with the node
/// rebuilt over each rewritten input.
proof fn lemma_split_unary(p: PlanV, subs: Seq<PlanV>)
    requires
        p matches PlanV::Unary { input, .. } && subs == split_plans(*input),
    ensures
        (p matches PlanV::Unary { exprs, schema, input } ==> split_plans(p) == subs.map_values(
            |q: PlanV| PlanV::Unary { exprs, schema, input: Box::new(q) },
        )),
{
    match p {
        PlanV::Unary { exprs, schema, input } => {
            let mapped = subs.map_values(
                |q: PlanV| PlanV::Unary { exprs, schema, input: Box::new(q) },
            );
            match leaf_source(p) {
                TableDescV::Catalog(c) => {
                    assert(split_plans(p) =~= mapped);
                },
                _ => {
                    assert(split_plans(p) =~= mapped);
                },
            }
        },
        _ => {
        },
    }
}

} // verus!
